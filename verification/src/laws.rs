use vstd::prelude::*;

use crate::entry::AddressEntry;
use crate::entry::BotInstance;
use crate::entry::distinct_endpoints;
use crate::entry::entry_matches;
use crate::entry::entry_valid;
use crate::entry::fresh_entry;
use crate::entry::has_match;
use crate::entry::is_first_match;
use crate::entry::lemma_valid_entries_all_valid;
use crate::entry::lemma_valid_entries_idempotent;
use crate::entry::lemma_valid_entries_members;
use crate::entry::refreshed;
use crate::entry::upserted;
use crate::entry::valid_entries;
use crate::registry::cleaned_key;
use crate::store::clean_all_keys;

verus! {

/// Capacity law: a global cleanup removes nothing from a store none of whose
/// entries has expired. Together with `Registry::insert`'s contract this says
/// that a registry already holding its full count of keys, all fresh, answers
/// a further insert with `false` and is left unchanged.
pub proof fn lemma_full_store_survives_clean(store: Map<u128, Seq<AddressEntry>>, now: u64, ttl: u64)
    requires
        forall|k: u128| #[trigger] store.dom().contains(k) ==> store[k].len() > 0,
        forall|k: u128, i: int|
            store.dom().contains(k) && 0 <= i < store[k].len() ==> entry_valid(
                #[trigger] store[k][i],
                now,
                ttl,
            ),
    ensures
        clean_all_keys(store, now, ttl) == store,
{
    let cleaned = clean_all_keys(store, now, ttl);
    assert forall|k: u128| #[trigger] store.dom().contains(k) implies cleaned.dom().contains(k)
        && cleaned[k] == store[k] by {
        lemma_valid_entries_all_valid(store[k], now, ttl);
    }
    assert(cleaned =~= store);
}

/// Idempotent update: announcing the same endpoint under the same key at
/// times `t1` then `t2` leaves the list no longer than after the first
/// announcement, with exactly one entry for that endpoint, and that entry's
/// timestamp is the later time `t2`.
pub proof fn lemma_repeat_insert_single_entry(
    pre: Seq<AddressEntry>,
    mid: Seq<AddressEntry>,
    post: Seq<AddressEntry>,
    inst: BotInstance,
    t1: u64,
    t2: u64,
)
    requires
        distinct_endpoints(pre),
        upserted(pre, mid, inst, t1),
        upserted(mid, post, inst, t2),
    ensures
        post.len() == mid.len(),
        exists|i: int|
            0 <= i < post.len() && #[trigger] entry_matches(post[i], inst) && post[i].updated == t2
                && (forall|j: int| 0 <= j < post.len() && j != i ==> !entry_matches(post[j], inst)),
{
    if has_match(pre, inst) {
        let i0 = choose|i: int|
            is_first_match(pre, inst, i) && mid == pre.update(i, refreshed(pre[i], t1));
        assert(entry_matches(mid[i0], inst));
        assert forall|j: int| 0 <= j < mid.len() && j != i0 implies !entry_matches(
            mid[j],
            inst,
        ) by {
            if entry_matches(mid[j], inst) {
                assert(mid[j] == pre[j]);
                assert(crate::entry::same_endpoint(pre[i0], pre[j]));
            }
        }
        assert(has_match(mid, inst));
        let i1 = choose|i: int|
            is_first_match(mid, inst, i) && post == mid.update(i, refreshed(mid[i], t2));
        assert(i1 == i0);
        assert(entry_matches(post[i0], inst) && post[i0].updated == t2);
        assert forall|j: int| 0 <= j < post.len() && j != i0 implies !entry_matches(
            post[j],
            inst,
        ) by {
            assert(post[j] == mid[j]);
        }
    } else {
        assert(mid == pre.push(fresh_entry(inst, t1)));
        let i0 = pre.len() as int;
        assert(entry_matches(mid[i0], inst));
        assert forall|j: int| 0 <= j < mid.len() && j != i0 implies !entry_matches(
            mid[j],
            inst,
        ) by {
            assert(mid[j] == pre[j]);
        }
        assert(has_match(mid, inst));
        let i1 = choose|i: int|
            is_first_match(mid, inst, i) && post == mid.update(i, refreshed(mid[i], t2));
        assert(i1 == i0);
        assert(entry_matches(post[i0], inst) && post[i0].updated == t2);
        assert forall|j: int| 0 <= j < post.len() && j != i0 implies !entry_matches(
            post[j],
            inst,
        ) by {
            assert(post[j] == mid[j]);
        }
    }
}

/// Distinct endpoints coexist: two announcements naming different endpoints,
/// neither present yet, append two separate fresh entries, in order.
pub proof fn lemma_distinct_endpoints_coexist(
    pre: Seq<AddressEntry>,
    mid: Seq<AddressEntry>,
    post: Seq<AddressEntry>,
    a: BotInstance,
    b: BotInstance,
    t1: u64,
    t2: u64,
)
    requires
        !has_match(pre, a),
        !has_match(pre, b),
        a.domain@ != b.domain@ || a.port != b.port,
        upserted(pre, mid, a, t1),
        upserted(mid, post, b, t2),
    ensures
        post == pre.push(fresh_entry(a, t1)).push(fresh_entry(b, t2)),
        post.len() == pre.len() + 2,
{
    assert(mid == pre.push(fresh_entry(a, t1)));
    assert(!entry_matches(fresh_entry(a, t1), b));
    assert forall|i: int| 0 <= i < mid.len() implies !entry_matches(mid[i], b) by {
        if i < pre.len() {
            assert(mid[i] == pre[i]);
        } else {
            assert(mid[i] == fresh_entry(a, t1));
        }
    }
    assert(!has_match(mid, b));
    assert(post == mid.push(fresh_entry(b, t2)));
}

/// TTL window: an entry announced at `t0` is valid at `now` exactly when
/// `now` has reached `t0` and lies less than `ttl` after it; in particular
/// an entry announced at time zero is valid exactly while `now < ttl`.
pub proof fn lemma_fresh_entry_validity_window(inst: BotInstance, t0: u64, now: u64, ttl: u64)
    ensures
        entry_valid(fresh_entry(inst, t0), now, ttl) <==> (t0 <= now && now - t0 < ttl),
        entry_valid(fresh_entry(inst, 0), now, ttl) <==> now < ttl,
{
}

/// Stale detection: filtering shortens a list exactly when some entry of it
/// is stale; by `Registry::get`'s contract this is exactly when a lookup
/// reports its result dirty.
pub proof fn lemma_dirty_iff_stale(s: Seq<AddressEntry>, now: u64, ttl: u64)
    ensures
        valid_entries(s, now, ttl).len() != s.len() <==> exists|i: int|
            0 <= i < s.len() && !entry_valid(#[trigger] s[i], now, ttl),
    decreases s.len(),
{
    lemma_valid_entries_members(s, now, ttl);
    if s.len() > 0 {
        let dl = s.drop_last();
        lemma_dirty_iff_stale(dl, now, ttl);
        lemma_valid_entries_members(dl, now, ttl);
        if entry_valid(s.last(), now, ttl) {
            if valid_entries(s, now, ttl).len() != s.len() {
                let w = choose|i: int| 0 <= i < dl.len() && !entry_valid(dl[i], now, ttl);
                assert(s[w] == dl[w]);
                assert(!entry_valid(s[w], now, ttl));
            }
            if exists|i: int| 0 <= i < s.len() && !entry_valid(#[trigger] s[i], now, ttl) {
                let w = choose|i: int| 0 <= i < s.len() && !entry_valid(s[i], now, ttl);
                assert(w < dl.len());
                assert(dl[w] == s[w]);
                assert(!entry_valid(dl[w], now, ttl));
            }
        } else {
            assert(!entry_valid(s[s.len() - 1], now, ttl));
        }
    }
}

/// The two cleanup passes are deliberately asymmetric: a key holding at
/// least one valid entry survives the global sweep with its list untouched,
/// stale entries included (so a following lookup still reports it dirty),
/// while the key-scoped cleanup prunes the stale entries out.
pub proof fn lemma_cleanup_asymmetry(
    store: Map<u128, Seq<AddressEntry>>,
    key: u128,
    now: u64,
    ttl: u64,
)
    requires
        store.dom().contains(key),
        valid_entries(store[key], now, ttl).len() > 0,
    ensures
        clean_all_keys(store, now, ttl).dom().contains(key),
        clean_all_keys(store, now, ttl)[key] == store[key],
        cleaned_key(store, key, now, ttl).dom().contains(key),
        cleaned_key(store, key, now, ttl)[key] == valid_entries(store[key], now, ttl),
{
}

/// Key-scoped cleanup is idempotent: cleaning a key twice in a row, with no
/// insert in between, leaves exactly what one cleaning left. A key whose
/// entries had all expired is gone after the first cleaning, so the second
/// finds nothing.
pub proof fn lemma_clean_key_idempotent(
    store: Map<u128, Seq<AddressEntry>>,
    key: u128,
    now: u64,
    ttl: u64,
)
    ensures
        cleaned_key(cleaned_key(store, key, now, ttl), key, now, ttl) == cleaned_key(
            store,
            key,
            now,
            ttl,
        ),
{
    let once = cleaned_key(store, key, now, ttl);
    if store.dom().contains(key) && valid_entries(store[key], now, ttl).len() > 0 {
        lemma_valid_entries_idempotent(store[key], now, ttl);
        assert(once[key] == valid_entries(store[key], now, ttl));
        assert(cleaned_key(once, key, now, ttl) =~= once);
    }
}

} // verus!
