use vstd::prelude::*;

use crate::entry::AddressEntry;
use crate::entry::BotInstance;
use crate::entry::distinct_endpoints;
use crate::entry::entry_matches;
use crate::entry::fresh_entry;
use crate::entry::has_match;
use crate::entry::is_first_match;
use crate::entry::lemma_valid_entries_distinct;
use crate::entry::refreshed;
use crate::entry::same_endpoint;
use crate::entry::upserted;
use crate::entry::valid_entries;
use crate::store::clean_all_keys;
use crate::store::empty_store;
use crate::store::key_entries;
use crate::store::mm_get_vec;
use crate::store::mm_insert;
use crate::store::mm_insert_many;
use crate::store::mm_len;
use crate::store::mm_remove;
use crate::store::mm_keys;
use crate::store::mm_store;
use crate::store::mm_with_capacity;
use vstd::set_lib::lemma_len_subset;

verus! {

/// How one announcement under `key` changes the whole store at time `now`:
/// the key's list is upserted, every other key is untouched.
pub open spec fn upserted_store(
    pre: Map<u128, Seq<AddressEntry>>,
    post: Map<u128, Seq<AddressEntry>>,
    key: u128,
    inst: BotInstance,
    now: u64,
) -> bool {
    &&& post.dom() == pre.dom().insert(key)
    &&& forall|k: u128| k != key && pre.dom().contains(k) ==> post[k] == pre[k]
    &&& upserted(key_entries(pre, key), post[key], inst, now)
}

/// The store after a key-scoped cleanup at time `now`: the key's stale
/// entries are removed, survivors keep their order; a key whose list is left
/// empty is dropped; an absent key leaves the store unchanged.
pub open spec fn cleaned_key(
    store: Map<u128, Seq<AddressEntry>>,
    key: u128,
    now: u64,
    ttl: u64,
) -> Map<u128, Seq<AddressEntry>> {
    if !store.dom().contains(key) {
        store
    } else if valid_entries(store[key], now, ttl).len() == 0 {
        store.remove(key)
    } else {
        store.insert(key, valid_entries(store[key], now, ttl))
    }
}

/// A bounded-capacity, per-key, multi-valued store of announced endpoints
/// with time-to-live expiry. The capacity bounds the number of distinct
/// keys, not the number of entries.
pub struct Registry {
    map: multimap::MultiMap<u128, AddressEntry>,
    ttl_millis: u64,
    capacity: usize,
}

impl Registry {
    /// The mapping from each stored key to the ordered list of its entries.
    pub closed spec fn store(&self) -> Map<u128, Seq<AddressEntry>> {
        mm_store(self.map)
    }

    /// The configured time-to-live, in milliseconds.
    pub closed spec fn ttl(&self) -> u64 {
        self.ttl_millis
    }

    /// The configured ceiling on the number of distinct keys.
    pub closed spec fn cap(&self) -> usize {
        self.capacity
    }

    /// The registry's invariant: finitely many keys and never more of them
    /// than the capacity allows; no key maps to an empty list; within one
    /// key's list no two entries name the same endpoint.
    pub open spec fn wf(&self) -> bool {
        &&& self.store().dom().finite()
        &&& self.store().dom().len() <= self.cap()
        &&& forall|k: u128| #[trigger] self.store().dom().contains(k) ==> self.store()[k].len() > 0
        &&& forall|k: u128| #[trigger]
            self.store().dom().contains(k) ==> distinct_endpoints(self.store()[k])
    }

    /// Creates an empty registry that holds at most `capacity` distinct keys
    /// and treats entries older than `ttl_millis` as expired.
    pub fn create(capacity: usize, ttl_millis: u64) -> (r: Registry)
        ensures
            r.wf(),
            r.store() == empty_store(),
            r.ttl() == ttl_millis,
            r.cap() == capacity,
    {
        let r = Registry { map: mm_with_capacity(capacity), ttl_millis, capacity };
        proof {
            assert(r.store().dom() =~= Set::empty());
        }
        r
    }

    /// The position of the first entry matching the announcement, if any.
    fn find_match(entries: &Vec<AddressEntry>, inst: &BotInstance) -> (r: Option<usize>)
        ensures
            match r {
                Some(i) => is_first_match(entries@, *inst, i as int),
                None => !has_match(entries@, *inst),
            },
    {
        let mut i: usize = 0;
        while i < entries.len()
            invariant
                i <= entries.len(),
                forall|j: int| 0 <= j < i ==> !entry_matches(entries@[j], *inst),
            decreases entries.len() - i,
        {
            if entries[i] == *inst {
                return Some(i);
            }
            i = i + 1;
        }
        None
    }

    /// Copies the entries still valid at `now`, preserving their order.
    fn filter_valid(entries: &Vec<AddressEntry>, now: u64, ttl_millis: u64) -> (r: Vec<
        AddressEntry,
    >)
        ensures
            r@ == valid_entries(entries@, now, ttl_millis),
    {
        let mut out: Vec<AddressEntry> = Vec::new();
        let mut i: usize = 0;
        proof {
            assert(out@ =~= valid_entries(entries@.take(0), now, ttl_millis));
        }
        while i < entries.len()
            invariant
                i <= entries.len(),
                out@ == valid_entries(entries@.take(i as int), now, ttl_millis),
            decreases entries.len() - i,
        {
            proof {
                assert(entries@.take(i as int + 1).drop_last() =~= entries@.take(i as int));
                assert(entries@.take(i as int + 1).last() == entries@[i as int]);
            }
            let e = &entries[i];
            if e.is_entry_valid(now, ttl_millis) {
                out.push(e.duplicate());
            }
            i = i + 1;
        }
        proof {
            assert(entries@.take(entries@.len() as int) =~= entries@);
        }
        out
    }

    /// Files the announcement under `key` at time `now`, with capacity
    /// headroom already established by the caller.
    fn insert_unchecked(&mut self, key: u128, value: &BotInstance, now: u64)
        requires
            old(self).wf(),
            old(self).store().dom().len() < old(self).cap() || old(self).store().dom().contains(
                key,
            ),
        ensures
            final(self).wf(),
            final(self).ttl() == old(self).ttl(),
            final(self).cap() == old(self).cap(),
            upserted_store(old(self).store(), final(self).store(), key, *value, now),
    {
        let ghost pre = old(self).store();
        match mm_remove(&mut self.map, key) {
            None => {
                proof {
                    assert(pre.remove(key) =~= pre);
                }
                let fresh = AddressEntry::new_from_instance(value, now);
                mm_insert(&mut self.map, key, fresh);
                proof {
                    assert(self.store().dom() =~= pre.dom().insert(key));
                    assert(self.store()[key] =~= Seq::empty().push(fresh_entry(*value, now)));
                    assert(!has_match(key_entries(pre, key), *value));
                }
            },
            Some(mut entries) => {
                let ghost pre_list = pre[key];
                match Self::find_match(&entries, value) {
                    Some(idx) => {
                        let found = entries.remove(idx);
                        entries.insert(
                            idx,
                            AddressEntry { domain: found.domain, port: found.port, updated: now },
                        );
                        proof {
                            assert(entries@ =~= pre_list.update(
                                idx as int,
                                refreshed(pre_list[idx as int], now),
                            ));
                        }
                    },
                    None => {
                        entries.push(AddressEntry::new_from_instance(value, now));
                    },
                }
                let ghost new_list = entries@;
                proof {
                    assert(key_entries(pre.remove(key), key) =~= Seq::empty());
                }
                mm_insert_many(&mut self.map, key, entries);
                proof {
                    assert(Seq::empty() + new_list =~= new_list);
                    assert(self.store() =~= pre.insert(key, new_list));
                    assert(self.store().dom() =~= pre.dom().insert(key));
                    assert(distinct_endpoints(pre_list));
                    assert forall|i: int, j: int| 0 <= i < j < new_list.len() implies !same_endpoint(
                        new_list[i],
                        new_list[j],
                    ) by {
                        if has_match(pre_list, *value) {
                        } else {
                            if j == pre_list.len() {
                                assert(!entry_matches(pre_list[i], *value));
                            }
                        }
                    }
                }
            },
        }
    }

    /// Registers the announcement under `key` at time `now`. With capacity
    /// headroom the announcement is filed at once; at capacity, a global
    /// cleanup runs first and the announcement is filed only if it freed a
    /// slot; otherwise nothing but the cleanup happens and `false` comes back.
    pub fn insert(&mut self, key: u128, value: BotInstance, now: u64) -> (r: bool)
        requires
            old(self).wf(),
        ensures
            final(self).wf(),
            final(self).ttl() == old(self).ttl(),
            final(self).cap() == old(self).cap(),
            ({
                let pre = old(self).store();
                let cleaned = clean_all_keys(pre, now, old(self).ttl());
                if pre.dom().len() < old(self).cap() {
                    r == true && upserted_store(pre, final(self).store(), key, value, now)
                } else if cleaned.dom().len() < old(self).cap() {
                    r == true && upserted_store(cleaned, final(self).store(), key, value, now)
                } else {
                    r == false && final(self).store() == cleaned
                }
            }),
    {
        if mm_len(&self.map) < self.capacity {
            self.insert_unchecked(key, &value, now);
            true
        } else {
            self.clean(now);
            if mm_len(&self.map) < self.capacity {
                self.insert_unchecked(key, &value, now);
                true
            } else {
                false
            }
        }
    }

    /// Looks up `key` at time `now`. Absent keys answer `None`; a present key
    /// answers its valid entries in stored order, next to a dirty flag that
    /// is set exactly when a stale entry was filtered out. The registry
    /// itself is never changed.
    pub fn get(&self, key: u128, now: u64) -> (r: Option<(Vec<AddressEntry>, bool)>)
        ensures
            match r {
                None => !self.store().dom().contains(key),
                Some(pair) => self.store().dom().contains(key) && pair.0@ == valid_entries(
                    self.store()[key],
                    now,
                    self.ttl(),
                ) && (pair.1 <==> valid_entries(self.store()[key], now, self.ttl()).len()
                    != self.store()[key].len()),
            },
    {
        match mm_get_vec(&self.map, key) {
            None => None,
            Some(entries) => {
                let kept = Self::filter_valid(&entries, now, self.ttl_millis);
                let dirty = kept.len() != entries.len();
                Some((kept, dirty))
            },
        }
    }

    /// Removes every stale entry under `key` at time `now`, keeping the
    /// survivors in order; a key left empty is removed outright; an absent
    /// key is a no-op.
    pub fn clean_key(&mut self, key: u128, now: u64)
        requires
            old(self).wf(),
        ensures
            final(self).wf(),
            final(self).ttl() == old(self).ttl(),
            final(self).cap() == old(self).cap(),
            final(self).store() == cleaned_key(old(self).store(), key, now, old(self).ttl()),
    {
        let ghost pre = old(self).store();
        match mm_remove(&mut self.map, key) {
            None => {
                proof {
                    assert(pre.remove(key) =~= pre);
                }
            },
            Some(entries) => {
                let kept = Self::filter_valid(&entries, now, self.ttl_millis);
                if kept.len() > 0 {
                    let ghost kept_list = kept@;
                    proof {
                        assert(key_entries(pre.remove(key), key) =~= Seq::empty());
                    }
                    mm_insert_many(&mut self.map, key, kept);
                    proof {
                        assert(Seq::empty() + kept_list =~= kept_list);
                        assert(self.store() =~= pre.insert(key, kept_list));
                        assert(self.store().dom() =~= pre.dom().insert(key));
                        lemma_valid_entries_distinct(pre[key], now, self.ttl_millis);
                    }
                }
            },
        }
    }

    /// The global sweep: removes every key whose entries have all gone stale
    /// at `now`. A key with at least one valid entry survives with its list
    /// untouched, stale entries included — deliberately coarser than
    /// `clean_key`, which prunes stale entries inside a surviving key.
    pub fn clean(&mut self, now: u64)
        requires
            old(self).wf(),
        ensures
            final(self).wf(),
            final(self).ttl() == old(self).ttl(),
            final(self).cap() == old(self).cap(),
            final(self).store() == clean_all_keys(old(self).store(), now, old(self).ttl()),
    {
        let ghost pre = old(self).store();
        let keys = mm_keys(&self.map);
        let ttl = self.ttl_millis;
        let mut i: usize = 0;
        while i < keys.len()
            invariant
                i <= keys.len(),
                self.ttl_millis == old(self).ttl_millis,
                self.capacity == old(self).capacity,
                ttl == old(self).ttl_millis,
                pre == old(self).store(),
                keys@.no_duplicates(),
                forall|j: int| 0 <= j < keys@.len() ==> pre.dom().contains(#[trigger] keys@[j]),
                forall|k: u128| #[trigger] pre.dom().contains(k) ==> keys@.contains(k),
                forall|k: u128| #[trigger] self.store().dom().contains(k) ==> pre.dom().contains(
                    k,
                ) && self.store()[k] == pre[k],
                forall|k: u128|
                    pre.dom().contains(k) && !self.store().dom().contains(k) ==> exists|j: int|
                        0 <= j < i && keys@[j] == k,
                forall|j: int|
                    0 <= j < i ==> (self.store().dom().contains(#[trigger] keys@[j])
                        <==> valid_entries(pre[keys@[j]], now, ttl).len() > 0),
            decreases keys.len() - i,
        {
            let key = keys[i];
            proof {
                assert(pre.dom().contains(key));
                if !self.store().dom().contains(key) {
                    let j = choose|j: int| 0 <= j < i && keys@[j] == key;
                    assert(keys@[j] == keys@[i as int]);
                    assert(false);
                }
            }
            match mm_get_vec(&self.map, key) {
                Some(entries) => {
                    let kept = Self::filter_valid(&entries, now, ttl);
                    if kept.len() == 0 {
                        mm_remove(&mut self.map, key);
                        proof {
                            assert forall|j: int| 0 <= j < i implies keys@[j] != key by {
                                assert(keys@[j] != keys@[i as int]);
                            }
                        }
                    }
                },
                None => {
                    proof {
                        assert(false);
                    }
                },
            }
            i = i + 1;
        }
        proof {
            let post = self.store();
            let target = clean_all_keys(pre, now, self.ttl_millis);
            assert forall|k: u128| #[trigger] target.dom().contains(k) implies post.dom().contains(
                k,
            ) && post[k] == pre[k] by {
                let j = choose|j: int| 0 <= j < keys@.len() && keys@[j] == k;
                assert(post.dom().contains(keys@[j]));
            }
            assert forall|k: u128| #[trigger] post.dom().contains(k) implies target.dom().contains(
                k,
            ) by {
                let j = choose|j: int| 0 <= j < keys@.len() && keys@[j] == k;
                assert(post.dom().contains(keys@[j]));
            }
            assert(post =~= target);
            assert(post.dom().subset_of(pre.dom()));
            lemma_len_subset(post.dom(), pre.dom());
            assert forall|k: u128| #[trigger] post.dom().contains(k) implies post[k].len() > 0
                && distinct_endpoints(post[k]) by {
                assert(pre.dom().contains(k));
            }
        }
    }
}

/// Chooses the caller address the transport files under: the forwarded
/// address when one was given, otherwise the connection's own address.
pub fn pick_address(forwarded: Option<u128>, connection: Option<u128>) -> (r: Option<u128>)
    ensures
        r == if forwarded is Some {
            forwarded
        } else {
            connection
        },
{
    match forwarded {
        Some(a) => Some(a),
        None => connection,
    }
}

} // verus!
