//! The session registry: at most one live session per tenant key, with
//! idle-time eviction (TTL sweep on every lookup) and capacity
//! eviction of the least-recently-active entry. Time is supplied by
//! the caller as a monotone seconds counter.

use vstd::prelude::*;

use crate::config::ModelConfig;
use crate::session::{ChatSession, SessionView};

verus! {

/// One registry entry: a tenant key, the session's identity, the time
/// of its last use, and the session itself.
pub struct SessionEntry {
    pub key: i64,
    pub session_id: u64,
    pub last_activity: u64,
    pub session: ChatSession,
}

/// The mathematical value of a registry entry.
#[verifier::ext_equal]
pub ghost struct EntryView {
    pub key: i64,
    pub id: u64,
    pub last_activity: u64,
    pub session: SessionView,
}

impl View for SessionEntry {
    type V = EntryView;

    open spec fn view(&self) -> EntryView {
        EntryView {
            key: self.key,
            id: self.session_id,
            last_activity: self.last_activity,
            session: self.session@,
        }
    }
}

/// The views of an entry sequence.
pub open spec fn entry_views(s: Seq<SessionEntry>) -> Seq<EntryView> {
    s.map_values(|e: SessionEntry| e@)
}

/// An entry is expired at `now` when it has been idle for longer than
/// `ttl` seconds.
pub open spec fn entry_expired(e: EntryView, now: u64, ttl: u64) -> bool {
    now > e.last_activity + ttl
}

/// The entries that survive the idle sweep at `now`, in order.
pub open spec fn live_entries(s: Seq<EntryView>, now: u64, ttl: u64) -> Seq<EntryView>
    decreases s.len(),
{
    if s.len() == 0 {
        Seq::<EntryView>::empty()
    } else {
        (if entry_expired(s.first(), now, ttl) {
            Seq::<EntryView>::empty()
        } else {
            seq![s.first()]
        }) + live_entries(s.drop_first(), now, ttl)
    }
}

/// Whether some entry carries the key.
pub open spec fn has_key(s: Seq<EntryView>, key: i64) -> bool {
    exists|j: int| 0 <= j < s.len() && s[j].key == key
}

/// The index of the entry with the key (unique under well-formedness).
pub open spec fn idx_of_key(s: Seq<EntryView>, key: i64) -> int {
    choose|j: int| 0 <= j < s.len() && s[j].key == key
}

/// `j` is the first index of minimal `last_activity`.
pub open spec fn is_first_min(s: Seq<EntryView>, j: int) -> bool {
    &&& 0 <= j < s.len()
    &&& forall|k: int| 0 <= k < s.len() ==> s[j].last_activity <= (#[trigger] s[k]).last_activity
    &&& forall|k: int| 0 <= k < j ==> (#[trigger] s[k]).last_activity > s[j].last_activity
}

/// The first index of minimal `last_activity`.
pub open spec fn first_min_idx(s: Seq<EntryView>) -> int {
    choose|j: int| is_first_min(s, j)
}

/// Some first index of minimal activity exists in a non-empty
/// sequence, so `first_min_idx` denotes it.
pub proof fn lemma_first_min_exists(s: Seq<EntryView>)
    requires
        s.len() > 0,
    ensures
        is_first_min(s, first_min_idx(s)),
    decreases s.len(),
{
    if s.len() == 1 {
        assert(is_first_min(s, 0));
    } else {
        lemma_first_min_exists(s.drop_last());
        let j = first_min_idx(s.drop_last());
        assert(is_first_min(s.drop_last(), j));
        assert(forall|k: int| 0 <= k < s.len() - 1 ==> (#[trigger] s[k]) == s.drop_last()[k]);
        assert(s.last() == s[s.len() - 1]);
        if s.last().last_activity < s.drop_last()[j].last_activity {
            assert forall|k: int| 0 <= k < s.len() implies s[s.len() - 1].last_activity <= (
            #[trigger] s[k]).last_activity by {
                if k < s.len() - 1 {
                    assert(s.drop_last()[j].last_activity <= s.drop_last()[k].last_activity);
                }
            }
            assert forall|k: int| 0 <= k < s.len() - 1 implies (#[trigger] s[k]).last_activity > s[
            s.len() - 1].last_activity by {
                assert(s.drop_last()[j].last_activity <= s.drop_last()[k].last_activity);
            }
            assert(is_first_min(s, s.len() - 1));
        } else {
            assert forall|k: int| 0 <= k < s.len() implies s[j].last_activity <= (#[trigger] s[
            k]).last_activity by {
                if k < s.len() - 1 {
                    assert(s.drop_last()[j].last_activity <= s.drop_last()[k].last_activity);
                }
            }
            assert forall|k: int| 0 <= k < j implies (#[trigger] s[k]).last_activity > s[
            j].last_activity by {
                assert(s.drop_last()[k].last_activity > s.drop_last()[j].last_activity);
            }
            assert(is_first_min(s, j));
        }
    }
    let w = choose|j: int| is_first_min(s, j);
    assert(is_first_min(s, w));
}

/// The first index of minimal activity is unique.
pub proof fn lemma_first_min_unique(s: Seq<EntryView>, j1: int, j2: int)
    requires
        is_first_min(s, j1),
        is_first_min(s, j2),
    ensures
        j1 == j2,
{
    if j1 < j2 {
        assert(s[j1].last_activity > s[j2].last_activity);
        assert(s[j2].last_activity >= s[j1].last_activity);
    }
    if j2 < j1 {
        assert(s[j2].last_activity > s[j1].last_activity);
        assert(s[j1].last_activity >= s[j2].last_activity);
    }
}

/// Keys are pairwise distinct and session identities are below the
/// registry's next identity.
pub open spec fn entries_wf(s: Seq<EntryView>, next_id: u64) -> bool {
    &&& forall|j: int, k: int|
        0 <= j < k < s.len() ==> (#[trigger] s[j]).key != (#[trigger] s[k]).key
    &&& forall|j: int| 0 <= j < s.len() ==> (#[trigger] s[j]).id < next_id
}

/// Every surviving entry is one of the original entries.
pub proof fn lemma_live_membership(s: Seq<EntryView>, now: u64, ttl: u64)
    ensures
        forall|j: int|
            0 <= j < live_entries(s, now, ttl).len() ==> exists|k: int|
                0 <= k < s.len() && s[k] == #[trigger] live_entries(s, now, ttl)[j],
    decreases s.len(),
{
    if s.len() > 0 {
        lemma_live_membership(s.drop_first(), now, ttl);
        let live = live_entries(s, now, ttl);
        let head: Seq<EntryView> = if entry_expired(s.first(), now, ttl) {
            Seq::<EntryView>::empty()
        } else {
            seq![s.first()]
        };
        assert forall|j: int| 0 <= j < live.len() implies exists|k: int|
            0 <= k < s.len() && s[k] == #[trigger] live[j] by {
            if j < head.len() {
                assert(s[0] == live[j]);
            } else {
                let sub = live_entries(s.drop_first(), now, ttl);
                assert(live[j] == sub[j - head.len()]);
                let k0 = choose|k: int| 0 <= k < s.drop_first().len() && s.drop_first()[k] == sub[
                    j - head.len()
                ];
                assert(s[k0 + 1] == live[j]);
            }
        }
    }
}

/// The sweep keeps keys distinct and identities bounded.
pub proof fn lemma_live_wf(s: Seq<EntryView>, now: u64, ttl: u64, next_id: u64)
    requires
        entries_wf(s, next_id),
    ensures
        entries_wf(live_entries(s, now, ttl), next_id),
    decreases s.len(),
{
    if s.len() > 0 {
        assert(entries_wf(s.drop_first(), next_id));
        lemma_live_wf(s.drop_first(), now, ttl, next_id);
        lemma_live_membership(s.drop_first(), now, ttl);
        let live = live_entries(s, now, ttl);
        let sub = live_entries(s.drop_first(), now, ttl);
        let head: Seq<EntryView> = if entry_expired(s.first(), now, ttl) {
            Seq::<EntryView>::empty()
        } else {
            seq![s.first()]
        };
        assert forall|j: int, k: int| 0 <= j < k < live.len() implies live[j].key != live[k].key by {
            if j < head.len() {
                assert(live[j] == s[0]);
                assert(live[k] == sub[k - head.len()]);
                let k0 = choose|m: int|
                    0 <= m < s.drop_first().len() && s.drop_first()[m] == sub[k - head.len()];
                assert(s[k0 + 1] == live[k]);
                assert(s[0].key != s[k0 + 1].key);
            } else {
                assert(live[j] == sub[j - head.len()]);
                assert(live[k] == sub[k - head.len()]);
            }
        }
        assert forall|j: int| 0 <= j < live.len() implies (#[trigger] live[j]).id < next_id by {
            if j < head.len() {
                assert(live[j] == s[0]);
            } else {
                assert(live[j] == sub[j - head.len()]);
            }
        }
    }
}

/// The sweep after appending one entry: the appended entry survives
/// exactly when it is not expired.
pub proof fn lemma_live_push(s: Seq<EntryView>, x: EntryView, now: u64, ttl: u64)
    ensures
        live_entries(s.push(x), now, ttl) == live_entries(s, now, ttl) + (if entry_expired(
            x,
            now,
            ttl,
        ) {
            Seq::<EntryView>::empty()
        } else {
            seq![x]
        }),
    decreases s.len(),
{
    let tail: Seq<EntryView> = if entry_expired(x, now, ttl) {
        Seq::<EntryView>::empty()
    } else {
        seq![x]
    };
    let p2 = s.push(x);
    assert(p2.len() == s.len() + 1);
    if s.len() == 0 {
        assert(p2.first() == x);
        assert(p2.drop_first() =~= Seq::<EntryView>::empty());
        assert(live_entries(p2.drop_first(), now, ttl) == Seq::<EntryView>::empty());
        assert(live_entries(p2, now, ttl) == (if entry_expired(p2.first(), now, ttl) {
            Seq::<EntryView>::empty()
        } else {
            seq![p2.first()]
        }) + live_entries(p2.drop_first(), now, ttl));
        assert(live_entries(p2, now, ttl) =~= live_entries(s, now, ttl) + tail);
    } else {
        assert(p2.first() == s.first());
        assert(p2.drop_first() =~= s.drop_first().push(x));
        lemma_live_push(s.drop_first(), x, now, ttl);
        assert(live_entries(p2, now, ttl) == (if entry_expired(p2.first(), now, ttl) {
            Seq::<EntryView>::empty()
        } else {
            seq![p2.first()]
        }) + live_entries(p2.drop_first(), now, ttl));
        assert(live_entries(p2, now, ttl) =~= live_entries(s, now, ttl) + tail);
    }
}

/// The result of one registry lookup: the entries after the step, the
/// next identity, the returned session identity, and whether a new
/// session was created.
pub open spec fn registry_step(
    entries: Seq<EntryView>,
    next_id: u64,
    chat_id: i64,
    now: u64,
    ttl: u64,
    max_sessions: usize,
    fresh: SessionView,
) -> (Seq<EntryView>, u64, u64, bool) {
    let live = live_entries(entries, now, ttl);
    if has_key(live, chat_id) {
        let j = idx_of_key(live, chat_id);
        (live.update(j, EntryView { last_activity: now, ..live[j] }), next_id, live[j].id, false)
    } else {
        let newcomer = EntryView { key: chat_id, id: next_id, last_activity: now, session: fresh };
        if live.len() >= max_sessions && live.len() > 0 {
            let m = first_min_idx(live);
            (live.remove(m).push(newcomer), (next_id + 1) as u64, next_id, true)
        } else {
            (live.push(newcomer), (next_id + 1) as u64, next_id, true)
        }
    }
}

/// The keyed registry of live sessions.
pub struct SessionManager {
    pub entries: Vec<SessionEntry>,
    pub next_id: u64,
    pub config: ModelConfig,
}

/// The registry's validity: distinct keys, identities below `next_id`.
pub open spec fn manager_wf(m: &SessionManager) -> bool {
    entries_wf(entry_views(m.entries@), m.next_id)
}

/// The TTL in effect: the configured one, else one hour.
pub open spec fn ttl_spec(c: &ModelConfig) -> u64 {
    match c.remote {
        Some(ref r) => match r.session {
            Some(ref sc) => sc.ttl_secs,
            None => 3600u64,
        },
        None => 3600u64,
    }
}

/// The session capacity in effect: the configured one, else 100.
pub open spec fn max_sessions_spec(c: &ModelConfig) -> usize {
    match c.remote {
        Some(ref r) => match r.session {
            Some(ref sc) => sc.max_sessions,
            None => 100usize,
        },
        None => 100usize,
    }
}

impl SessionManager {
    /// An empty registry over the given configuration.
    pub fn new(config: ModelConfig) -> (r: SessionManager)
        ensures
            entry_views(r.entries@) == Seq::<EntryView>::empty(),
            r.next_id == 0,
            r.config == config,
            manager_wf(&r),
    {
        let r = SessionManager { entries: Vec::new(), next_id: 0, config };
        proof {
            assert(entry_views(r.entries@) =~= Seq::<EntryView>::empty());
        }
        r
    }

    /// The TTL and capacity in effect.
    pub fn session_config(&self) -> (r: (u64, usize))
        ensures
            r.0 == ttl_spec(&self.config),
            r.1 == max_sessions_spec(&self.config),
    {
        match &self.config.remote {
            Some(remote) => match &remote.session {
                Some(sc) => (sc.ttl_secs, sc.max_sessions),
                None => (3600, 100),
            },
            None => (3600, 100),
        }
    }

    /// The number of live sessions.
    pub fn session_count(&self) -> (r: usize)
        ensures
            r == entry_views(self.entries@).len(),
    {
        self.entries.len()
    }

    /// Whether a session exists for the key.
    pub fn contains_key(&self, chat_id: i64) -> (r: bool)
        ensures
            r == has_key(entry_views(self.entries@), chat_id),
    {
        let n = self.entries.len();
        let mut i: usize = 0;
        while i < n
            invariant
                i <= n,
                n == self.entries@.len(),
                forall|j: int| 0 <= j < i ==> entry_views(self.entries@)[j].key != chat_id,
            decreases n - i,
        {
            if self.entries[i].key == chat_id {
                proof {
                    assert(entry_views(self.entries@)[i as int].key == chat_id);
                }
                return true;
            }
            i = i + 1;
        }
        false
    }

    /// Look up or create the session for a tenant key, at time `now`.
    ///
    /// Expired entries are swept first. An existing entry is refreshed
    /// and its session identity returned (nothing created). Otherwise,
    /// when the registry is full, the first least-recently-active entry
    /// is evicted; then `fresh` is installed under a new identity.
    /// The result is the session identity and whether `fresh` was
    /// installed.
    #[verifier::rlimit(80)]
    pub fn get_or_create(&mut self, chat_id: i64, now: u64, fresh: ChatSession) -> (r: (u64, bool))
        requires
            manager_wf(old(self)),
            old(self).next_id < 0xFFFF_FFFF_FFFF_FFFF,
        ensures
            ({
                let (entries2, next2, id, created) = registry_step(
                    entry_views(old(self).entries@),
                    old(self).next_id,
                    chat_id,
                    now,
                    ttl_spec(&old(self).config),
                    max_sessions_spec(&old(self).config),
                    fresh@,
                );
                &&& entry_views(final(self).entries@) == entries2
                &&& final(self).next_id == next2
                &&& r.0 == id
                &&& r.1 == created
                &&& final(self).config == old(self).config
                &&& manager_wf(final(self))
            }),
    {
        let ghost orig = entry_views(self.entries@);
        let ghost fresh_view = fresh@;
        let (ttl, max_sessions) = self.session_config();
        let ghost ttlg = ttl;
        let ghost maxg = max_sessions;

        // Idle sweep.
        let mut work: Vec<SessionEntry> = Vec::new();
        core::mem::swap(&mut self.entries, &mut work);
        let mut kept: Vec<SessionEntry> = Vec::new();
        proof {
            assert(entry_views(kept@) + live_entries(entry_views(work@), now, ttl) =~= live_entries(
                orig,
                now,
                ttl,
            ));
        }
        while work.len() > 0
            invariant
                entry_views(kept@) + live_entries(entry_views(work@), now, ttl) == live_entries(
                    orig,
                    now,
                    ttl,
                ),
            decreases work.len(),
        {
            let ghost work_pre = entry_views(work@);
            let ghost kept_pre = entry_views(kept@);
            let e = work.remove(0);
            let ghost ev = e@;
            proof {
                assert(work_pre.first() == ev);
                assert(entry_views(work@) =~= work_pre.drop_first());
            }
            let idle = now.saturating_sub(e.last_activity);
            if idle <= ttl {
                kept.push(e);
                proof {
                    assert(!entry_expired(ev, now, ttl));
                    assert(entry_views(kept@) =~= kept_pre.push(ev));
                    assert(entry_views(kept@) + live_entries(entry_views(work@), now, ttl)
                        =~= live_entries(orig, now, ttl));
                }
            } else {
                proof {
                    assert(entry_expired(ev, now, ttl));
                    assert(entry_views(kept@) + live_entries(entry_views(work@), now, ttl)
                        =~= live_entries(orig, now, ttl));
                }
            }
        }
        proof {
            assert(entry_views(work@) =~= Seq::<EntryView>::empty());
            assert(entry_views(kept@) =~= live_entries(orig, now, ttl));
            lemma_live_wf(orig, now, ttl, self.next_id);
        }
        let ghost live = live_entries(orig, now, ttl);

        // Reuse an existing entry.
        let n = kept.len();
        let mut i: usize = 0;
        while i < n
            invariant
                i <= n,
                n == kept@.len(),
                entry_views(kept@) == live,
                entries_wf(live, self.next_id),
                self.next_id == old(self).next_id,
                self.config == old(self).config,
                orig == entry_views(old(self).entries@),
                ttlg == ttl,
                maxg == max_sessions,
                ttl == ttl_spec(&old(self).config),
                max_sessions == max_sessions_spec(&old(self).config),
                live == live_entries(orig, now, ttl),
                forall|j: int| 0 <= j < i ==> entry_views(kept@)[j].key != chat_id,
            decreases n - i,
        {
            if kept[i].key == chat_id {
                let mut e = kept.remove(i);
                let ghost epre = e@;
                e.last_activity = now;
                let id = e.session_id;
                kept.insert(i, e);
                self.entries = kept;
                proof {
                    assert(live[i as int] == epre);
                    assert(epre.key == chat_id);
                    assert(has_key(live, chat_id));
                    let j = idx_of_key(live, chat_id);
                    assert(0 <= j < live.len() && live[j].key == chat_id);
                    if j != i as int {
                        assert(live[j].key != live[i as int].key);
                    }
                    assert(j == i as int);
                    assert(entry_views(self.entries@) =~~= live.update(
                        i as int,
                        EntryView { last_activity: now, ..live[i as int] },
                    ));
                    let upd = live.update(i as int, EntryView { last_activity: now, ..live[i as int] });
                    assert forall|a: int, b: int| 0 <= a < b < upd.len() implies (#[trigger] upd[
                    a]).key != (#[trigger] upd[b]).key by {
                        assert(upd[a].key == live[a].key);
                        assert(upd[b].key == live[b].key);
                    }
                    assert forall|a: int| 0 <= a < upd.len() implies (#[trigger] upd[a]).id
                        < self.next_id by {
                        assert(upd[a].id == live[a].id);
                    }
                    assert(entries_wf(entry_views(self.entries@), self.next_id));
                    assert(live_entries(orig, now, ttlg) == live);
                    assert(has_key(live_entries(orig, now, ttlg), chat_id));
                    assert(idx_of_key(live_entries(orig, now, ttlg), chat_id) == i as int);
                    let stepres = registry_step(orig, old(self).next_id, chat_id, now, ttlg, maxg, fresh_view);
                    assert(entry_views(self.entries@) == stepres.0);
                    assert(self.next_id == stepres.1);
                    assert(id == stepres.2);
                    assert(!stepres.3);
                }
                return (id, false);
            }
            i = i + 1;
        }
        proof {
            assert(!has_key(live, chat_id));
        }

        // Capacity eviction of the first least-recently-active entry.
        if kept.len() >= max_sessions && kept.len() > 0 {
            let m = kept.len();
            let mut best: usize = 0;
            let mut j: usize = 1;
            while j < m
                invariant
                    best < j <= m,
                    m == kept@.len(),
                    entry_views(kept@) == live,
                    forall|k: int|
                        0 <= k < j ==> entry_views(kept@)[best as int].last_activity <= (
                        #[trigger] entry_views(kept@)[k]).last_activity,
                    forall|k: int|
                        0 <= k < best ==> (#[trigger] entry_views(kept@)[k]).last_activity
                            > entry_views(kept@)[best as int].last_activity,
                decreases m - j,
            {
                if kept[j].last_activity < kept[best].last_activity {
                    best = j;
                }
                j = j + 1;
            }
            proof {
                assert(is_first_min(live, best as int));
                let c = first_min_idx(live);
                lemma_first_min_unique(live, c, best as int);
            }
            let _evicted = kept.remove(best);
        }

        // Install the fresh session.
        let id = self.next_id;
        kept.push(
            SessionEntry { key: chat_id, session_id: id, last_activity: now, session: fresh },
        );
        self.next_id = id + 1;
        self.entries = kept;
        proof {
            let newcomer = EntryView {
                key: chat_id,
                id: id,
                last_activity: now,
                session: fresh_view,
            };
            assert(forall|j: int| 0 <= j < live.len() ==> (#[trigger] live[j]).key != chat_id);
            if live.len() >= max_sessions && live.len() > 0 {
                let m = first_min_idx(live);
                let fin = live.remove(m).push(newcomer);
                assert(entry_views(self.entries@) =~~= fin);
                assert(forall|a: int|
                    0 <= a < live.remove(m).len() ==> #[trigger] live.remove(m)[a] == (if a < m {
                        live[a]
                    } else {
                        live[a + 1]
                    }));
                assert forall|a: int, b: int| 0 <= a < b < fin.len() implies (#[trigger] fin[
                a]).key != (#[trigger] fin[b]).key by {
                    if b == fin.len() - 1 {
                        assert(fin[b] == newcomer);
                    }
                }
                assert forall|a: int| 0 <= a < fin.len() implies (#[trigger] fin[a]).id
                    < self.next_id by {
                    if a == fin.len() - 1 {
                        assert(fin[a] == newcomer);
                    }
                }
                assert(entries_wf(entry_views(self.entries@), self.next_id));
            } else {
                let fin = live.push(newcomer);
                assert(entry_views(self.entries@) =~~= fin);
                assert forall|a: int, b: int| 0 <= a < b < fin.len() implies (#[trigger] fin[
                a]).key != (#[trigger] fin[b]).key by {
                    if b == fin.len() - 1 {
                        assert(fin[b] == newcomer);
                        assert(fin[a] == live[a]);
                    }
                }
                assert forall|a: int| 0 <= a < fin.len() implies (#[trigger] fin[a]).id
                    < self.next_id by {
                    if a == fin.len() - 1 {
                        assert(fin[a] == newcomer);
                    } else {
                        assert(fin[a] == live[a]);
                    }
                }
                assert(entries_wf(entry_views(self.entries@), self.next_id));
            }
            let stepres = registry_step(orig, old(self).next_id, chat_id, now, ttlg, maxg, fresh_view);
            assert(entry_views(self.entries@) == stepres.0);
            assert(self.next_id == stepres.1);
            assert(id == stepres.2);
            assert(stepres.3);
        }
        (id, true)
    }

    /// Reset the session of a key: clear its ledger and forget its
    /// injected context. False when no session exists for the key.
    /// Removing the persisted ledger is the caller's concern.
    pub fn reset_session(&mut self, chat_id: i64) -> (r: bool)
        requires
            manager_wf(old(self)),
        ensures
            r == has_key(entry_views(old(self).entries@), chat_id),
            !r ==> *final(self) == *old(self),
            r ==> ({
                let s = entry_views(old(self).entries@);
                let j = idx_of_key(s, chat_id);
                let e = s[j];
                &&& entry_views(final(self).entries@) == s.update(
                    j,
                    EntryView {
                        session: SessionView {
                            history: Seq::<crate::message::MsgView>::empty(),
                            detector: crate::context::DetectorView { injected: false, last: None },
                            ..e.session
                        },
                        ..e
                    },
                )
                &&& final(self).next_id == old(self).next_id
                &&& final(self).config == old(self).config
            }),
            manager_wf(final(self)),
    {
        let ghost s = entry_views(self.entries@);
        let n = self.entries.len();
        let mut i: usize = 0;
        while i < n
            invariant
                i <= n,
                n == self.entries@.len(),
                *self == *old(self),
                s == entry_views(self.entries@),
                manager_wf(self),
                forall|j: int| 0 <= j < i ==> entry_views(self.entries@)[j].key != chat_id,
            decreases n - i,
        {
            if self.entries[i].key == chat_id {
                let mut e = self.entries.remove(i);
                let ghost epre = e@;
                let _released = e.session.reset();
                let ghost eafter = e@;
                self.entries.insert(i, e);
                proof {
                    assert(s[i as int].key == chat_id);
                    assert(has_key(s, chat_id));
                    let j = idx_of_key(s, chat_id);
                    assert(0 <= j < s.len() && s[j].key == chat_id);
                    assert(j == i as int);
                    assert(eafter =~~= EntryView {
                        session: SessionView {
                            history: Seq::<crate::message::MsgView>::empty(),
                            detector: crate::context::DetectorView { injected: false, last: None },
                            ..epre.session
                        },
                        ..epre
                    });
                    assert(entry_views(self.entries@) =~~= s.update(i as int, eafter));
                    assert(entries_wf(entry_views(self.entries@), self.next_id));
                }
                return true;
            }
            i = i + 1;
        }
        false
    }

    /// Compact the session of a key by truncation: false when no
    /// session exists for the key or its ledger is empty. On success
    /// the session's ledger keeps its most recent half and its
    /// injected context is forgotten; everything else is untouched.
    pub fn compact_session(&mut self, chat_id: i64) -> (r: bool)
        requires
            manager_wf(old(self)),
        ensures
            !has_key(entry_views(old(self).entries@), chat_id) ==> !r && *final(self) == *old(
                self,
            ),
            has_key(entry_views(old(self).entries@), chat_id) ==> ({
                let s = entry_views(old(self).entries@);
                let j = idx_of_key(s, chat_id);
                &&& r == (s[j].session.history.len() > 0)
                &&& !r ==> entry_views(final(self).entries@) == s
                &&& r ==> entry_views(final(self).entries@) == s.update(
                    j,
                    EntryView {
                        session: SessionView {
                            history: s[j].session.history.subrange(
                                s[j].session.history.len() - s[j].session.history.len() / 2,
                                s[j].session.history.len() as int,
                            ),
                            detector: crate::context::DetectorView { injected: false, last: None },
                            ..s[j].session
                        },
                        ..s[j]
                    },
                )
                &&& final(self).next_id == old(self).next_id
                &&& final(self).config == old(self).config
            }),
            manager_wf(final(self)),
    {
        let ghost s = entry_views(self.entries@);
        let n = self.entries.len();
        let mut i: usize = 0;
        while i < n
            invariant
                i <= n,
                n == self.entries@.len(),
                *self == *old(self),
                s == entry_views(self.entries@),
                manager_wf(self),
                forall|j: int| 0 <= j < i ==> entry_views(self.entries@)[j].key != chat_id,
            decreases n - i,
        {
            if self.entries[i].key == chat_id {
                let mut e = self.entries.remove(i);
                let ghost epre = e@;
                let compacted = e.session.run_compact();
                let ghost eafter = e@;
                self.entries.insert(i, e);
                proof {
                    assert(s[i as int].key == chat_id);
                    assert(has_key(s, chat_id));
                    let j = idx_of_key(s, chat_id);
                    assert(0 <= j < s.len() && s[j].key == chat_id);
                    if j != i as int {
                        assert(s[j].key != s[i as int].key);
                    }
                    assert(j == i as int);
                    assert(epre == s[i as int]);
                    if compacted {
                        assert(eafter =~~= EntryView {
                            session: SessionView {
                                history: epre.session.history.subrange(
                                    epre.session.history.len() - epre.session.history.len() / 2,
                                    epre.session.history.len() as int,
                                ),
                                detector: crate::context::DetectorView {
                                    injected: false,
                                    last: None,
                                },
                                ..epre.session
                            },
                            ..epre
                        });
                    } else {
                        assert(eafter =~~= epre);
                    }
                    assert(entry_views(self.entries@) =~~= s.update(i as int, eafter));
                    if !compacted {
                        assert(entry_views(self.entries@) =~~= s);
                    }
                    assert(entries_wf(entry_views(self.entries@), self.next_id));
                }
                return compacted;
            }
            i = i + 1;
        }
        false
    }
}


/// An unexpired entry survives the sweep.
pub proof fn lemma_live_contains(s: Seq<EntryView>, now: u64, ttl: u64, k: int)
    requires
        0 <= k < s.len(),
        !entry_expired(s[k], now, ttl),
    ensures
        exists|j: int|
            0 <= j < live_entries(s, now, ttl).len() && live_entries(s, now, ttl)[j] == s[k],
    decreases s.len(),
{
    let live = live_entries(s, now, ttl);
    let head: Seq<EntryView> = if entry_expired(s.first(), now, ttl) {
        Seq::<EntryView>::empty()
    } else {
        seq![s.first()]
    };
    let sub = live_entries(s.drop_first(), now, ttl);
    if k == 0 {
        assert(live[0] == s[0]);
    } else {
        assert(s.drop_first()[k - 1] == s[k]);
        lemma_live_contains(s.drop_first(), now, ttl, k - 1);
        let j0 = choose|j: int| 0 <= j < sub.len() && sub[j] == s.drop_first()[k - 1];
        assert(live[head.len() + j0] == sub[j0]);
    }
}

/// One registry step preserves well-formedness, and the returned
/// identity belongs to an entry that carries the key and the time of
/// the step.
pub proof fn lemma_step_wf(
    entries: Seq<EntryView>,
    next_id: u64,
    chat_id: i64,
    now: u64,
    ttl: u64,
    max_sessions: usize,
    fresh: SessionView,
)
    requires
        entries_wf(entries, next_id),
        next_id < 0xFFFF_FFFF_FFFF_FFFF,
    ensures
        ({
            let (e2, n2, id, created) = registry_step(
                entries,
                next_id,
                chat_id,
                now,
                ttl,
                max_sessions,
                fresh,
            );
            &&& entries_wf(e2, n2)
            &&& exists|k: int|
                0 <= k < e2.len() && (#[trigger] e2[k]).key == chat_id && e2[k].id == id && e2[
                    k
                ].last_activity == now
        }),
{
    let live = live_entries(entries, now, ttl);
    lemma_live_wf(entries, now, ttl, next_id);
    let (e2, n2, id, created) = registry_step(
        entries,
        next_id,
        chat_id,
        now,
        ttl,
        max_sessions,
        fresh,
    );
    if has_key(live, chat_id) {
        let j = idx_of_key(live, chat_id);
        assert(0 <= j < live.len() && live[j].key == chat_id);
        assert(e2[j].key == chat_id && e2[j].id == id && e2[j].last_activity == now);
        assert forall|a: int, b: int| 0 <= a < b < e2.len() implies (#[trigger] e2[a]).key != (
        #[trigger] e2[b]).key by {
            assert(e2[a].key == live[a].key);
            assert(e2[b].key == live[b].key);
        }
        assert forall|a: int| 0 <= a < e2.len() implies (#[trigger] e2[a]).id < n2 by {
            assert(e2[a].id == live[a].id);
        }
    } else {
        let newcomer = EntryView { key: chat_id, id: next_id, last_activity: now, session: fresh };
        assert(forall|j: int| 0 <= j < live.len() ==> (#[trigger] live[j]).key != chat_id);
        if live.len() >= max_sessions && live.len() > 0 {
            lemma_first_min_exists(live);
            let m = first_min_idx(live);
            assert(0 <= m < live.len());
            let rem = live.remove(m);
            assert(forall|a: int|
                0 <= a < rem.len() ==> #[trigger] rem[a] == (if a < m {
                    live[a]
                } else {
                    live[a + 1]
                }));
            assert(e2[e2.len() - 1] == newcomer);
            assert forall|a: int, b: int| 0 <= a < b < e2.len() implies (#[trigger] e2[a]).key != (
            #[trigger] e2[b]).key by {
                if b == e2.len() - 1 {
                    assert(e2[b] == newcomer);
                }
            }
            assert forall|a: int| 0 <= a < e2.len() implies (#[trigger] e2[a]).id < n2 by {
                if a == e2.len() - 1 {
                    assert(e2[a] == newcomer);
                }
            }
        } else {
            assert(e2[e2.len() - 1] == newcomer);
            assert forall|a: int, b: int| 0 <= a < b < e2.len() implies (#[trigger] e2[a]).key != (
            #[trigger] e2[b]).key by {
                if b == e2.len() - 1 {
                    assert(e2[b] == newcomer);
                    assert(e2[a] == live[a]);
                }
            }
            assert forall|a: int| 0 <= a < e2.len() implies (#[trigger] e2[a]).id < n2 by {
                if a == e2.len() - 1 {
                    assert(e2[a] == newcomer);
                } else {
                    assert(e2[a] == live[a]);
                }
            }
        }
    }
}

/// Two lookups for the same key, the second before the first one's TTL
/// has elapsed, hand out the same session: the second call creates
/// nothing and returns the identity the first call returned.
pub proof fn lemma_reuse_within_ttl(
    entries: Seq<EntryView>,
    next_id: u64,
    chat_id: i64,
    now1: u64,
    now2: u64,
    ttl: u64,
    max_sessions: usize,
    f1: SessionView,
    f2: SessionView,
)
    requires
        entries_wf(entries, next_id),
        next_id < 0xFFFF_FFFF_FFFF_FFFF,
        now1 <= now2,
        now2 <= now1 + ttl,
    ensures
        ({
            let (e1, n1, id1, c1) = registry_step(
                entries,
                next_id,
                chat_id,
                now1,
                ttl,
                max_sessions,
                f1,
            );
            let (e2, n2, id2, c2) = registry_step(e1, n1, chat_id, now2, ttl, max_sessions, f2);
            id2 == id1 && !c2
        }),
{
    let (e1, n1, id1, c1) = registry_step(entries, next_id, chat_id, now1, ttl, max_sessions, f1);
    lemma_step_wf(entries, next_id, chat_id, now1, ttl, max_sessions, f1);
    let k = choose|k: int|
        0 <= k < e1.len() && (#[trigger] e1[k]).key == chat_id && e1[k].id == id1 && e1[
            k
        ].last_activity == now1;
    assert(!entry_expired(e1[k], now2, ttl));
    lemma_live_contains(e1, now2, ttl, k);
    let live2 = live_entries(e1, now2, ttl);
    let j0 = choose|j: int| 0 <= j < live2.len() && live2[j] == e1[k];
    assert(has_key(live2, chat_id));
    let j = idx_of_key(live2, chat_id);
    assert(0 <= j < live2.len() && live2[j].key == chat_id);
    lemma_live_wf(e1, now2, ttl, n1);
    if j != j0 {
        assert(live2[j].key != live2[j0].key);
    }
    assert(live2[j].id == id1);
}

/// Lookups for two distinct keys, with room in the registry and
/// nothing expiring, create two distinct sessions and leave the
/// registry larger by two.
pub proof fn lemma_distinct_keys_distinct_sessions(
    entries: Seq<EntryView>,
    next_id: u64,
    key_a: i64,
    key_b: i64,
    now: u64,
    ttl: u64,
    max_sessions: usize,
    f1: SessionView,
    f2: SessionView,
)
    requires
        entries_wf(entries, next_id),
        next_id < 0xFFFF_FFFF_FFFF_FFFE,
        key_a != key_b,
        live_entries(entries, now, ttl) == entries,
        !has_key(entries, key_a),
        !has_key(entries, key_b),
        entries.len() + 1 < max_sessions,
    ensures
        ({
            let (e1, n1, id1, c1) = registry_step(
                entries,
                next_id,
                key_a,
                now,
                ttl,
                max_sessions,
                f1,
            );
            let (e2, n2, id2, c2) = registry_step(e1, n1, key_b, now, ttl, max_sessions, f2);
            &&& c1 && c2
            &&& id1 != id2
            &&& e2.len() == entries.len() + 2
        }),
{
    let ea = EntryView { key: key_a, id: next_id, last_activity: now, session: f1 };
    let (e1, n1, id1, c1) = registry_step(entries, next_id, key_a, now, ttl, max_sessions, f1);
    assert(e1 == entries.push(ea));
    lemma_live_push(entries, ea, now, ttl);
    assert(!entry_expired(ea, now, ttl));
    assert(live_entries(e1, now, ttl) =~= e1);
    assert forall|j: int| 0 <= j < e1.len() implies (#[trigger] e1[j]).key != key_b by {
        if j < entries.len() {
            assert(e1[j] == entries[j]);
        } else {
            assert(e1[j] == ea);
        }
    }
    assert(!has_key(e1, key_b));
    let (e2, n2, id2, c2) = registry_step(e1, n1, key_b, now, ttl, max_sessions, f2);
    assert(e2.len() == entries.len() + 2);
}

/// A session left idle past the TTL is evicted by the next lookup:
/// after creating one session, waiting longer than the TTL, and
/// looking up a different key, only the new session is live.
pub proof fn lemma_ttl_eviction(
    key_a: i64,
    key_b: i64,
    t1: u64,
    t2: u64,
    ttl: u64,
    max_sessions: usize,
    next_id: u64,
    f1: SessionView,
    f2: SessionView,
)
    requires
        key_a != key_b,
        next_id < 0xFFFF_FFFF_FFFF_FFFE,
        t2 > t1 + ttl,
    ensures
        ({
            let none = Seq::<EntryView>::empty();
            let (e1, n1, id1, c1) = registry_step(
                none,
                next_id,
                key_a,
                t1,
                ttl,
                max_sessions,
                f1,
            );
            let (e2, n2, id2, c2) = registry_step(e1, n1, key_b, t2, ttl, max_sessions, f2);
            &&& e1.len() == 1
            &&& e2.len() == 1
            &&& e2[0].key == key_b
            &&& !has_key(e2, key_a)
        }),
{
    let none = Seq::<EntryView>::empty();
    assert(live_entries(none, t1, ttl) == none);
    assert(!has_key(none, key_a));
    let ea = EntryView { key: key_a, id: next_id, last_activity: t1, session: f1 };
    let (e1, n1, id1, c1) = registry_step(none, next_id, key_a, t1, ttl, max_sessions, f1);
    assert(e1 == none.push(ea));
    assert(e1.len() == 1);
    let live2 = live_entries(e1, t2, ttl);
    assert(e1.first() == ea);
    assert(entry_expired(ea, t2, ttl));
    assert(e1.drop_first() =~= none);
    assert(live_entries(e1.drop_first(), t2, ttl) == Seq::<EntryView>::empty());
    assert(live2 == Seq::<EntryView>::empty() + live_entries(e1.drop_first(), t2, ttl));
    assert(live2 =~= none);
    assert(!has_key(live2, key_b));
    let (e2, n2, id2, c2) = registry_step(e1, n1, key_b, t2, ttl, max_sessions, f2);
    let eb = EntryView { key: key_b, id: n1, last_activity: t2, session: f2 };
    assert(e2 == live2.push(eb));
    assert(e2.len() == 1);
    assert(e2[0] == eb);
    assert(forall|j: int| 0 <= j < e2.len() ==> (#[trigger] e2[j]).key != key_a);
}

/// With a capacity of two, creating sessions for three distinct keys
/// in turn evicts exactly the least-recently-active of the first two:
/// the second and third sessions remain.
pub proof fn lemma_capacity_eviction(
    key_a: i64,
    key_b: i64,
    key_c: i64,
    t1: u64,
    t2: u64,
    t3: u64,
    ttl: u64,
    next_id: u64,
    f1: SessionView,
    f2: SessionView,
    f3: SessionView,
)
    requires
        key_a != key_b,
        key_a != key_c,
        key_b != key_c,
        next_id < 0xFFFF_FFFF_FFFF_FFFD,
        t1 < t2,
        t2 <= t3,
        t3 <= t1 + ttl,
    ensures
        ({
            let none = Seq::<EntryView>::empty();
            let (e1, n1, id1, c1) = registry_step(none, next_id, key_a, t1, ttl, 2, f1);
            let (e2, n2, id2, c2) = registry_step(e1, n1, key_b, t2, ttl, 2, f2);
            let (e3, n3, id3, c3) = registry_step(e2, n2, key_c, t3, ttl, 2, f3);
            &&& e2.len() == 2
            &&& e3.len() == 2
            &&& e3[0].key == key_b
            &&& e3[1].key == key_c
            &&& !has_key(e3, key_a)
        }),
{
    let none = Seq::<EntryView>::empty();
    assert(live_entries(none, t1, ttl) == none);
    assert(!has_key(none, key_a));
    let ea = EntryView { key: key_a, id: next_id, last_activity: t1, session: f1 };
    let (e1, n1, id1, c1) = registry_step(none, next_id, key_a, t1, ttl, 2, f1);
    assert(e1 == none.push(ea));
    assert(e1.len() == 1);

    lemma_live_push(none, ea, t2, ttl);
    assert(!entry_expired(ea, t2, ttl));
    let live2 = live_entries(e1, t2, ttl);
    assert(live2 =~= e1);
    assert(forall|j: int| 0 <= j < live2.len() ==> (#[trigger] live2[j]).key != key_b);
    assert(!has_key(live2, key_b));
    let eb = EntryView { key: key_b, id: n1, last_activity: t2, session: f2 };
    let (e2, n2, id2, c2) = registry_step(e1, n1, key_b, t2, ttl, 2, f2);
    assert(e2 == live2.push(eb));
    assert(e2.len() == 2);
    assert(e2[0] == ea && e2[1] == eb);

    lemma_live_push(live2, eb, t3, ttl);
    assert(!entry_expired(eb, t3, ttl));
    assert(!entry_expired(ea, t3, ttl));
    let live3 = live_entries(e2, t3, ttl);
    assert(live_entries(e1, t3, ttl) =~= e1) by {
        lemma_live_push(none, ea, t3, ttl);
    }
    assert(live3 =~= e2) by {
        assert(live_entries(live2.push(eb), t3, ttl) == live_entries(live2, t3, ttl) + seq![eb]);
        assert(live2 =~= e1);
        assert(live_entries(live2, t3, ttl) == live_entries(e1, t3, ttl));
        assert(live_entries(e1, t3, ttl) =~= e1);
    }
    assert(forall|j: int| 0 <= j < live3.len() ==> (#[trigger] live3[j]).key != key_c);
    assert(!has_key(live3, key_c));
    assert(is_first_min(live3, 0)) by {
        assert(live3[0] == ea);
        assert(live3[1] == eb);
    }
    let m = first_min_idx(live3);
    assert(is_first_min(live3, m));
    lemma_first_min_unique(live3, m, 0);
    let ec = EntryView { key: key_c, id: n2, last_activity: t3, session: f3 };
    let (e3, n3, id3, c3) = registry_step(e2, n2, key_c, t3, ttl, 2, f3);
    assert(e3 == live3.remove(0).push(ec));
    assert(live3.remove(0) =~= seq![eb]);
    assert(e3 =~= seq![eb, ec]);
    assert(e3[0].key == key_b && e3[1].key == key_c);
    assert(forall|j: int| 0 <= j < e3.len() ==> (#[trigger] e3[j]).key != key_a);
}

} // verus!
