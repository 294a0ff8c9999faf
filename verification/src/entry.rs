use vstd::prelude::*;

verus! {

/// A caller-supplied endpoint announcement: a domain name and a port,
/// carrying no timestamp of its own.
#[derive(Debug)]
pub struct BotInstance {
    pub domain: String,
    pub port: u16,
}

/// A stored endpoint: the announced domain and port, plus the time the
/// announcement was last confirmed, in milliseconds since the Unix epoch.
#[derive(Clone, Debug)]
pub struct AddressEntry {
    pub domain: String,
    pub port: u16,
    pub updated: u64,
}

/// Two entries name the same endpoint when their domains and ports agree;
/// the `updated` timestamp is no part of an entry's identity.
pub open spec fn same_endpoint(a: AddressEntry, b: AddressEntry) -> bool {
    a.domain@ == b.domain@ && a.port == b.port
}

/// An entry matches an announcement when it names the announced endpoint.
pub open spec fn entry_matches(e: AddressEntry, inst: BotInstance) -> bool {
    e.domain@ == inst.domain@ && e.port == inst.port
}

/// The entry a fresh announcement produces at time `now`.
pub open spec fn fresh_entry(inst: BotInstance, now: u64) -> AddressEntry {
    AddressEntry { domain: inst.domain, port: inst.port, updated: now }
}

/// The entry `e` with its timestamp refreshed to `now`.
pub open spec fn refreshed(e: AddressEntry, now: u64) -> AddressEntry {
    AddressEntry { domain: e.domain, port: e.port, updated: now }
}

/// Whether an entry is still fresh at `now` under time-to-live `ttl`:
/// its timestamp lies no later than `now` and less than `ttl` before it.
/// A timestamp in the future counts as expired, never as valid.
pub open spec fn entry_valid(e: AddressEntry, now: u64, ttl: u64) -> bool {
    e.updated <= now && now - e.updated < ttl
}

/// The subsequence of entries still valid at `now`, in stored order.
pub open spec fn valid_entries(s: Seq<AddressEntry>, now: u64, ttl: u64) -> Seq<AddressEntry>
    decreases s.len(),
{
    if s.len() == 0 {
        Seq::empty()
    } else {
        let prefix = valid_entries(s.drop_last(), now, ttl);
        if entry_valid(s.last(), now, ttl) {
            prefix.push(s.last())
        } else {
            prefix
        }
    }
}

/// No two entries of the list name the same endpoint.
pub open spec fn distinct_endpoints(s: Seq<AddressEntry>) -> bool {
    forall|i: int, j: int| 0 <= i < j < s.len() ==> !same_endpoint(s[i], s[j])
}

/// Some entry of the list matches the announcement.
pub open spec fn has_match(s: Seq<AddressEntry>, inst: BotInstance) -> bool {
    exists|i: int| 0 <= i < s.len() && entry_matches(s[i], inst)
}

/// `i` is the position of the first entry matching the announcement.
pub open spec fn is_first_match(s: Seq<AddressEntry>, inst: BotInstance, i: int) -> bool {
    &&& 0 <= i < s.len()
    &&& entry_matches(s[i], inst)
    &&& forall|j: int| 0 <= j < i ==> !entry_matches(s[j], inst)
}

/// How one announcement changes a key's entry list at time `now`: the first
/// matching entry is refreshed in place, neither moved nor duplicated; when
/// no entry matches, a fresh entry is appended.
pub open spec fn upserted(
    pre: Seq<AddressEntry>,
    post: Seq<AddressEntry>,
    inst: BotInstance,
    now: u64,
) -> bool {
    if has_match(pre, inst) {
        exists|i: int| is_first_match(pre, inst, i) && post == pre.update(i, refreshed(pre[i], now))
    } else {
        post == pre.push(fresh_entry(inst, now))
    }
}

/// Filtering keeps only entries that are valid at `now`, and every kept
/// entry already stood in the list; the filtered list never grows.
pub proof fn lemma_valid_entries_members(s: Seq<AddressEntry>, now: u64, ttl: u64)
    ensures
        valid_entries(s, now, ttl).len() <= s.len(),
        forall|j: int|
            0 <= j < valid_entries(s, now, ttl).len() ==> entry_valid(
                #[trigger] valid_entries(s, now, ttl)[j],
                now,
                ttl,
            ) && s.contains(valid_entries(s, now, ttl)[j]),
    decreases s.len(),
{
    if s.len() > 0 {
        lemma_valid_entries_members(s.drop_last(), now, ttl);
        assert forall|j: int|
            0 <= j < valid_entries(s, now, ttl).len() implies entry_valid(
            #[trigger] valid_entries(s, now, ttl)[j],
            now,
            ttl,
        ) && s.contains(valid_entries(s, now, ttl)[j]) by {
            let prefix = valid_entries(s.drop_last(), now, ttl);
            if j < prefix.len() {
                let w = choose|i: int| 0 <= i < s.drop_last().len() && s.drop_last()[i] == prefix[j];
                assert(s[w] == prefix[j]);
            } else {
                assert(s[s.len() - 1] == valid_entries(s, now, ttl)[j]);
            }
        }
    }
}

/// Filtering a list whose endpoints are pairwise distinct leaves the
/// endpoints pairwise distinct.
pub proof fn lemma_valid_entries_distinct(s: Seq<AddressEntry>, now: u64, ttl: u64)
    requires
        distinct_endpoints(s),
    ensures
        distinct_endpoints(valid_entries(s, now, ttl)),
    decreases s.len(),
{
    if s.len() > 0 {
        assert(distinct_endpoints(s.drop_last()));
        lemma_valid_entries_distinct(s.drop_last(), now, ttl);
        lemma_valid_entries_members(s.drop_last(), now, ttl);
        let out = valid_entries(s, now, ttl);
        let prefix = valid_entries(s.drop_last(), now, ttl);
        assert forall|i: int, j: int| 0 <= i < j < out.len() implies !same_endpoint(
            out[i],
            out[j],
        ) by {
            if j == prefix.len() {
                let w = choose|k: int|
                    0 <= k < s.drop_last().len() && s.drop_last()[k] == prefix[i];
                assert(s[w] == prefix[i]);
                assert(!same_endpoint(s[w], s[s.len() - 1]));
            }
        }
    }
}

/// A list whose entries are all valid at `now` is left whole by filtering.
pub proof fn lemma_valid_entries_all_valid(s: Seq<AddressEntry>, now: u64, ttl: u64)
    requires
        forall|i: int| 0 <= i < s.len() ==> entry_valid(#[trigger] s[i], now, ttl),
    ensures
        valid_entries(s, now, ttl) == s,
    decreases s.len(),
{
    if s.len() > 0 {
        assert(forall|i: int|
            0 <= i < s.drop_last().len() ==> entry_valid(#[trigger] s.drop_last()[i], now, ttl));
        lemma_valid_entries_all_valid(s.drop_last(), now, ttl);
        assert(valid_entries(s, now, ttl) =~= s);
    }
}

/// Filtering twice at the same time yields what filtering once yields.
pub proof fn lemma_valid_entries_idempotent(s: Seq<AddressEntry>, now: u64, ttl: u64)
    ensures
        valid_entries(valid_entries(s, now, ttl), now, ttl) == valid_entries(s, now, ttl),
{
    lemma_valid_entries_members(s, now, ttl);
    lemma_valid_entries_all_valid(valid_entries(s, now, ttl), now, ttl);
}

impl AddressEntry {
    /// Builds the entry a fresh announcement produces at time `now`.
    pub fn new_from_instance(instance: &BotInstance, now: u64) -> (e: AddressEntry)
        ensures
            e == fresh_entry(*instance, now),
    {
        AddressEntry { domain: instance.domain.clone(), port: instance.port, updated: now }
    }

    /// Whether this entry is still fresh at `now` under `ttl_millis`.
    pub fn is_entry_valid(&self, now: u64, ttl_millis: u64) -> (b: bool)
        ensures
            b == entry_valid(*self, now, ttl_millis),
    {
        self.updated <= now && now - self.updated < ttl_millis
    }

    /// A copy of this entry, equal to it field by field.
    pub fn duplicate(&self) -> (e: AddressEntry)
        ensures
            e == *self,
    {
        AddressEntry { domain: self.domain.clone(), port: self.port, updated: self.updated }
    }
}

impl PartialEq for AddressEntry {
    /// Entries compare by endpoint identity alone: the timestamp is ignored.
    fn eq(&self, other: &AddressEntry) -> (r: bool) {
        self.domain == other.domain && self.port == other.port
    }
}

impl vstd::std_specs::cmp::PartialEqSpecImpl for AddressEntry {
    open spec fn obeys_eq_spec() -> bool {
        true
    }

    open spec fn eq_spec(&self, other: &AddressEntry) -> bool {
        same_endpoint(*self, *other)
    }
}

impl PartialEq<BotInstance> for AddressEntry {
    /// An entry equals an announcement when it names the announced endpoint.
    fn eq(&self, other: &BotInstance) -> (r: bool) {
        self.domain == other.domain && self.port == other.port
    }
}

impl vstd::std_specs::cmp::PartialEqSpecImpl<BotInstance> for AddressEntry {
    open spec fn obeys_eq_spec() -> bool {
        true
    }

    open spec fn eq_spec(&self, other: &BotInstance) -> bool {
        entry_matches(*self, *other)
    }
}

} // verus!
