//! The agent-handle pool: a lookup cache keyed by provider and model.
//! The pool holds only the identities of handles it handed out; the
//! handles themselves live with the callers, which also observe
//! whether a cached handle is still alive (the pool never keeps one
//! alive by itself).

use vstd::prelude::*;

use crate::text::str_eq;

verus! {

/// One cache entry: a provider/model key and the identity of the
/// handle last handed out for it.
pub struct PoolEntry {
    pub provider: String,
    pub model: String,
    pub handle_id: u64,
}

/// The handle pool.
pub struct ModelPool {
    pub entries: Vec<PoolEntry>,
    pub next_handle: u64,
}

/// The first index carrying the key, or -1.
pub open spec fn pool_find(s: Seq<PoolEntry>, provider: Seq<char>, model: Seq<char>) -> int
    decreases s.len(),
{
    if s.len() == 0 {
        -1
    } else if s.first().provider@ == provider && s.first().model@ == model {
        0
    } else {
        let r = pool_find(s.drop_first(), provider, model);
        if r < 0 {
            -1
        } else {
            r + 1
        }
    }
}

proof fn lemma_pool_find_at(s: Seq<PoolEntry>, provider: Seq<char>, model: Seq<char>, i: int)
    requires
        0 <= i < s.len(),
        s[i].provider@ == provider,
        s[i].model@ == model,
        forall|k: int|
            0 <= k < i ==> !((#[trigger] s[k]).provider@ == provider && s[k].model@ == model),
    ensures
        pool_find(s, provider, model) == i,
    decreases s.len(),
{
    if i > 0 {
        let d = s.drop_first();
        assert(d[i - 1] == s[i]);
        assert(forall|k: int|
            0 <= k < i - 1 ==> !((#[trigger] d[k]).provider@ == provider && d[k].model@ == model));
        lemma_pool_find_at(d, provider, model, i - 1);
    }
}

proof fn lemma_pool_find_none(s: Seq<PoolEntry>, provider: Seq<char>, model: Seq<char>)
    requires
        forall|k: int|
            0 <= k < s.len() ==> !((#[trigger] s[k]).provider@ == provider && s[k].model@ == model),
    ensures
        pool_find(s, provider, model) == -1,
    decreases s.len(),
{
    if s.len() > 0 {
        let d = s.drop_first();
        assert(forall|k: int|
            0 <= k < d.len() ==> !((#[trigger] d[k]).provider@ == provider && d[k].model@
                == model));
        lemma_pool_find_none(d, provider, model);
    }
}

impl ModelPool {
    /// An empty pool.
    pub fn new() -> (r: ModelPool)
        ensures
            r.entries@.len() == 0,
            r.next_handle == 0,
    {
        ModelPool { entries: Vec::new(), next_handle: 0 }
    }

    /// Look up or create the handle identity for a key. `cached_alive`
    /// says whether the caller could still upgrade the handle last
    /// handed out for this key: when true and the key is cached, the
    /// first cached entry's identity is returned and nothing changes;
    /// otherwise a new identity is issued and recorded, and the caller
    /// constructs the handle for it.
    pub fn get_or_create(&mut self, provider: &str, model: &str, cached_alive: bool) -> (r: (
        u64,
        bool,
    ))
        requires
            old(self).next_handle < 0xFFFF_FFFF_FFFF_FFFF,
        ensures
            ({
                let s = old(self).entries@;
                let found = pool_find(s, provider@, model@);
                if cached_alive && found >= 0 {
                    &&& !r.1
                    &&& *final(self) == *old(self)
                    &&& r.0 == s[found].handle_id
                } else {
                    &&& r.1
                    &&& r.0 == old(self).next_handle
                    &&& final(self).next_handle == old(self).next_handle + 1
                    &&& final(self).entries@.len() == s.len() + 1
                    &&& final(self).entries@.subrange(0, s.len() as int) == s
                    &&& final(self).entries@.last().provider@ == provider@
                    &&& final(self).entries@.last().model@ == model@
                    &&& final(self).entries@.last().handle_id == r.0
                }
            }),
    {
        let n = self.entries.len();
        if cached_alive {
            let mut i: usize = 0;
            while i < n
                invariant
                    cached_alive,
                    i <= n,
                    n == self.entries@.len(),
                    *self == *old(self),
                    forall|j: int|
                        0 <= j < i ==> !((#[trigger] self.entries@[j]).provider@ == provider@
                            && self.entries@[j].model@ == model@),
                decreases n - i,
            {
                if str_eq(self.entries[i].provider.as_str(), provider) && str_eq(
                    self.entries[i].model.as_str(),
                    model,
                ) {
                    proof {
                        lemma_pool_find_at(old(self).entries@, provider@, model@, i as int);
                    }
                    return (self.entries[i].handle_id, false);
                }
                i = i + 1;
            }
            proof {
                lemma_pool_find_none(old(self).entries@, provider@, model@);
            }
        }
        let id = self.next_handle;
        self.next_handle = id + 1;
        let ghost pre = self.entries@;
        self.entries.push(
            PoolEntry {
                provider: String::from_str(provider),
                model: String::from_str(model),
                handle_id: id,
            },
        );
        proof {
            assert(self.entries@.subrange(0, pre.len() as int) =~= pre);
        }
        (id, true)
    }
}

} // verus!
