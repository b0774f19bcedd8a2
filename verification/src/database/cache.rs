//! The caches in front of the message store: chat id and name in both
//! directions, and the messages of recently read mints. Both are LRU caches
//! of the `lru` crate.

use vstd::prelude::*;
use lru::LruCache;
use crate::database::models::{duplicate_all, QueryResult};

verus! {

/// `lru::LruCache`, held opaque; what it holds is named per key and value
/// type below.
#[verifier::external_type_specification]
#[verifier::external_body]
#[verifier::reject_recursive_types(K)]
#[verifier::reject_recursive_types(V)]
#[verifier::reject_recursive_types(S)]
pub struct ExLruCache<K, V, S>(LruCache<K, V, S>);

/// `lru::DefaultHasher`, the hash builder of an `LruCache`, held opaque.
#[verifier::external_type_specification]
#[verifier::external_body]
pub struct ExDefaultHasher(lru::DefaultHasher);

/// The position of the entry with key `k` in `s`, or -1.
pub open spec fn key_index<K, V>(s: Seq<(K, V)>, k: K) -> int
    decreases s.len(),
{
    if s.len() == 0 {
        -1
    } else if s[0].0 == k {
        0
    } else {
        let j = key_index(s.drop_first(), k);
        if j < 0 {
            -1
        } else {
            j + 1
        }
    }
}

/// No two entries of `s` have the same key.
pub open spec fn distinct_keys<K, V>(s: Seq<(K, V)>) -> bool {
    forall|i: int, j: int| 0 <= i < j < s.len() ==> s[i].0 != s[j].0
}

/// An LRU cache's entries, most recently used first, after looking up `k`:
/// a found entry moves to the front.
pub open spec fn after_get<K, V>(s: Seq<(K, V)>, k: K) -> Seq<(K, V)> {
    let i = key_index(s, k);
    if i >= 0 {
        seq![s[i]] + s.remove(i)
    } else {
        s
    }
}

/// An LRU cache's entries after putting `v` under `k` with capacity `cap`:
/// the entry goes to the front, replacing the old entry of `k`, or else the
/// least recently used entry when the cache is full.
pub open spec fn after_put<K, V>(s: Seq<(K, V)>, k: K, v: V, cap: nat) -> Seq<(K, V)> {
    let i = key_index(s, k);
    if i >= 0 {
        seq![(k, v)] + s.remove(i)
    } else if s.len() >= cap {
        seq![(k, v)] + s.drop_last()
    } else {
        seq![(k, v)] + s
    }
}

/// An LRU cache's entries after removing the entry of `k`.
pub open spec fn after_pop<K, V>(s: Seq<(K, V)>, k: K) -> Seq<(K, V)> {
    let i = key_index(s, k);
    if i >= 0 {
        s.remove(i)
    } else {
        s
    }
}

/// The entries of a chat-id-to-name cache, most recently used first.
pub uninterp spec fn id_name_entries(c: LruCache<i64, String>) -> Seq<(i64, Seq<char>)>;

/// The capacity a chat-id-to-name cache was made with.
pub uninterp spec fn id_name_capacity(c: LruCache<i64, String>) -> nat;

/// Makes an empty LRU cache of `cap` entries with `LruCache::new`. Trusted:
/// the cache starts empty with that capacity.
#[verifier::external_body]
fn id_name_new(cap: usize) -> (r: LruCache<i64, String>)
    requires
        cap >= 1,
    ensures
        id_name_entries(r) == Seq::<(i64, Seq<char>)>::empty(),
        id_name_capacity(r) == cap,
{
    LruCache::new(std::num::NonZeroUsize::new(cap).unwrap())
}

/// Looks up `k` with `LruCache::get`, copying the value out. Trusted, as the
/// crate's source shows: a found entry becomes the most recently used and
/// its value is returned; keys stay distinct.
#[verifier::external_body]
fn id_name_get(c: &mut LruCache<i64, String>, k: i64) -> (r: Option<String>)
    ensures
        id_name_entries(*final(c)) == after_get(id_name_entries(*old(c)), k),
        id_name_capacity(*final(c)) == id_name_capacity(*old(c)),
        r is Some <==> key_index(id_name_entries(*old(c)), k) >= 0,
        r matches Some(v) ==> v@ == id_name_entries(*old(c))[key_index(id_name_entries(*old(c)), k)].1,
{
    c.get(&k).cloned()
}

/// Puts `v` under `k` with `LruCache::put`. Trusted, as the crate's source
/// shows: the entry becomes the most recently used, replacing the old value
/// of `k`, or evicting the least recently used entry when the cache is full.
#[verifier::external_body]
fn id_name_put(c: &mut LruCache<i64, String>, k: i64, v: String)
    ensures
        id_name_entries(*final(c)) == after_put(id_name_entries(*old(c)), k, v@, id_name_capacity(*old(c))),
        id_name_capacity(*final(c)) == id_name_capacity(*old(c)),
{
    c.put(k, v);
}


/// The entries of a chat-name-to-id cache, most recently used first.
pub uninterp spec fn name_id_entries(c: LruCache<String, i64>) -> Seq<(Seq<char>, i64)>;

/// The capacity a chat-name-to-id cache was made with.
pub uninterp spec fn name_id_capacity(c: LruCache<String, i64>) -> nat;

/// Makes an empty LRU cache of `cap` entries with `LruCache::new`. Trusted:
/// the cache starts empty with that capacity.
#[verifier::external_body]
fn name_id_new(cap: usize) -> (r: LruCache<String, i64>)
    requires
        cap >= 1,
    ensures
        name_id_entries(r) == Seq::<(Seq<char>, i64)>::empty(),
        name_id_capacity(r) == cap,
{
    LruCache::new(std::num::NonZeroUsize::new(cap).unwrap())
}

/// Looks up `k` with `LruCache::get`, copying the value out. Trusted, as the
/// crate's source shows: a found entry becomes the most recently used and
/// its value is returned.
#[verifier::external_body]
fn name_id_get(c: &mut LruCache<String, i64>, k: &str) -> (r: Option<i64>)
    ensures
        name_id_entries(*final(c)) == after_get(name_id_entries(*old(c)), k@),
        name_id_capacity(*final(c)) == name_id_capacity(*old(c)),
        r is Some <==> key_index(name_id_entries(*old(c)), k@) >= 0,
        r matches Some(v) ==> v == name_id_entries(*old(c))[key_index(name_id_entries(*old(c)), k@)].1,
{
    c.get(k).cloned()
}

/// Puts `v` under `k` with `LruCache::put`. Trusted, as the crate's source
/// shows: the entry becomes the most recently used, replacing the old value
/// of `k`, or evicting the least recently used entry when the cache is full.
#[verifier::external_body]
fn name_id_put(c: &mut LruCache<String, i64>, k: String, v: i64)
    ensures
        name_id_entries(*final(c)) == after_put(name_id_entries(*old(c)), k@, v, name_id_capacity(*old(c))),
        name_id_capacity(*final(c)) == name_id_capacity(*old(c)),
{
    c.put(k, v);
}

/// A cache of chat names by id and chat ids by name.
pub struct ChatCache {
    id_to_name: LruCache<i64, String>,
    name_to_id: LruCache<String, i64>,
}

impl ChatCache {
    /// The names by id, most recently used first.
    pub closed spec fn names(&self) -> Seq<(i64, Seq<char>)> {
        id_name_entries(self.id_to_name)
    }

    /// The ids by name, most recently used first.
    pub closed spec fn ids(&self) -> Seq<(Seq<char>, i64)> {
        name_id_entries(self.name_to_id)
    }

    /// How many entries each direction holds at most.
    pub closed spec fn capacity(&self) -> nat {
        id_name_capacity(self.id_to_name)
    }

    /// The invariant: both directions have the same capacity, of at least
    /// one entry, and neither holds more entries than that.
    pub closed spec fn wf(&self) -> bool {
        &&& id_name_capacity(self.id_to_name) == name_id_capacity(self.name_to_id)
        &&& id_name_capacity(self.id_to_name) >= 1
        &&& id_name_entries(self.id_to_name).len() <= id_name_capacity(self.id_to_name)
        &&& name_id_entries(self.name_to_id).len() <= name_id_capacity(self.name_to_id)
    }

    /// Law: a chat cache never holds more entries in either direction than
    /// its capacity.
    pub proof fn law_chat_cache_within_capacity(&self)
        requires
            self.wf(),
        ensures
            self.capacity() >= 1,
            self.names().len() <= self.capacity(),
            self.ids().len() <= self.capacity(),
    {
    }

    /// An empty cache of `capacity` entries each way (at least one).
    pub fn new(capacity: usize) -> (r: Self)
        ensures
            r.wf(),
            r.names() == Seq::<(i64, Seq<char>)>::empty(),
            r.ids() == Seq::<(Seq<char>, i64)>::empty(),
            r.capacity() == if capacity == 0 { 1 } else { capacity as nat },
    {
        let cap = if capacity == 0 { 1 } else { capacity };
        ChatCache { id_to_name: id_name_new(cap), name_to_id: name_id_new(cap) }
    }

    /// The cached name of chat `chat_id`; a hit becomes the most recently used.
    pub fn get_name(&mut self, chat_id: i64) -> (r: Option<String>)
        requires
            old(self).wf(),
        ensures
            final(self).wf(),
            final(self).names() == after_get(old(self).names(), chat_id),
            final(self).ids() == old(self).ids(),
            final(self).capacity() == old(self).capacity(),
            r is Some <==> key_index(old(self).names(), chat_id) >= 0,
            r matches Some(n) ==> n@ == old(self).names()[key_index(old(self).names(), chat_id)].1,
    {
        proof {
            lemma_get_keeps_len(self.names(), chat_id);
        }
        id_name_get(&mut self.id_to_name, chat_id)
    }

    /// The cached id of the chat named `chat_name`; a hit becomes the most
    /// recently used.
    pub fn get_id(&mut self, chat_name: &str) -> (r: Option<i64>)
        requires
            old(self).wf(),
        ensures
            final(self).wf(),
            final(self).ids() == after_get(old(self).ids(), chat_name@),
            final(self).names() == old(self).names(),
            final(self).capacity() == old(self).capacity(),
            r is Some <==> key_index(old(self).ids(), chat_name@) >= 0,
            r matches Some(id) ==> id == old(self).ids()[key_index(old(self).ids(), chat_name@)].1,
    {
        proof {
            lemma_get_keeps_len(self.ids(), chat_name@);
        }
        name_id_get(&mut self.name_to_id, chat_name)
    }

    /// Records that chat `chat_id` is named `chat_name`, in both directions.
    pub fn insert(&mut self, chat_id: i64, chat_name: String)
        requires
            old(self).wf(),
        ensures
            final(self).wf(),
            final(self).names() == after_put(old(self).names(), chat_id, chat_name@, old(self).capacity()),
            final(self).ids() == after_put(old(self).ids(), chat_name@, chat_id, old(self).capacity()),
            final(self).capacity() == old(self).capacity(),
    {
        proof {
            law_put_respects_capacity(self.names(), chat_id, chat_name@, self.capacity());
            law_put_respects_capacity(self.ids(), chat_name@, chat_id, self.capacity());
        }
        id_name_put(&mut self.id_to_name, chat_id, chat_name.clone());
        name_id_put(&mut self.name_to_id, chat_name, chat_id);
    }
}


/// What the mint cache keeps per mint: the messages, and when they were put,
/// as a clock reading in nanoseconds (see [`crate::clock::now_nanos`]).
pub struct MintCacheEntry {
    pub messages: Vec<QueryResult>,
    pub last_update_ns: u128,
}

/// A mint cache entry as values: its messages and its time.
pub type MintEntry = (Seq<QueryResult>, u128);

/// The messages and time of `e`.
pub open spec fn entry_view(e: MintCacheEntry) -> MintEntry {
    (e.messages@, e.last_update_ns)
}

/// The entries of a mint cache, most recently used first.
pub uninterp spec fn mint_entries(c: LruCache<String, MintCacheEntry>) -> Seq<(Seq<char>, MintEntry)>;

/// The capacity a mint cache was made with.
pub uninterp spec fn mint_capacity(c: LruCache<String, MintCacheEntry>) -> nat;

/// Makes an empty LRU cache of `cap` entries with `LruCache::new`. Trusted:
/// the cache starts empty with that capacity.
#[verifier::external_body]
fn mint_new(cap: usize) -> (r: LruCache<String, MintCacheEntry>)
    requires
        cap >= 1,
    ensures
        mint_entries(r) == Seq::<(Seq<char>, MintEntry)>::empty(),
        mint_capacity(r) == cap,
{
    LruCache::new(std::num::NonZeroUsize::new(cap).unwrap())
}

/// Looks up `k` with `LruCache::get`. Trusted, as the crate's source shows: a
/// found entry becomes the most recently used and is returned; keys stay
/// distinct, since the cache keeps its entries in a hash map.
#[verifier::external_body]
fn mint_get<'a>(c: &'a mut LruCache<String, MintCacheEntry>, k: &str) -> (r: Option<&'a MintCacheEntry>)
    ensures
        mint_entries(*final(c)) == after_get(mint_entries(*old(c)), k@),
        mint_capacity(*final(c)) == mint_capacity(*old(c)),
        distinct_keys(mint_entries(*final(c))),
        r is Some <==> key_index(mint_entries(*old(c)), k@) >= 0,
        r matches Some(e) ==> entry_view(*e) == mint_entries(*old(c))[key_index(mint_entries(*old(c)), k@)].1,
{
    c.get(k)
}

/// Puts `e` under `k` with `LruCache::put`. Trusted, as the crate's source
/// shows: the entry becomes the most recently used, replacing the old value
/// of `k`, or evicting the least recently used entry when the cache is full;
/// keys stay distinct.
#[verifier::external_body]
fn mint_put(c: &mut LruCache<String, MintCacheEntry>, k: String, e: MintCacheEntry)
    ensures
        mint_entries(*final(c)) == after_put(mint_entries(*old(c)), k@, entry_view(e), mint_capacity(*old(c))),
        mint_capacity(*final(c)) == mint_capacity(*old(c)),
        distinct_keys(mint_entries(*final(c))),
{
    c.put(k, e);
}

/// Removes the entry of `k` with `LruCache::pop`. Trusted, as the crate's
/// source shows: the entry leaves and the others keep their order.
#[verifier::external_body]
fn mint_pop(c: &mut LruCache<String, MintCacheEntry>, k: &str)
    ensures
        mint_entries(*final(c)) == after_pop(mint_entries(*old(c)), k@),
        mint_capacity(*final(c)) == mint_capacity(*old(c)),
        distinct_keys(mint_entries(*final(c))),
{
    c.pop(k);
}

/// Empties the cache with `LruCache::clear`. Trusted: no entry is left.
#[verifier::external_body]
fn mint_clear(c: &mut LruCache<String, MintCacheEntry>)
    ensures
        mint_entries(*final(c)) == Seq::<(Seq<char>, MintEntry)>::empty(),
        mint_capacity(*final(c)) == mint_capacity(*old(c)),
{
    c.clear();
}

/// The key and time of every entry, most recently used first, read with
/// `LruCache::iter`. Trusted, as the crate's source shows: the iterator
/// visits the entries in most-recently-used order, and it changes nothing.
#[verifier::external_body]
fn mint_stamps(c: &LruCache<String, MintCacheEntry>) -> (r: Vec<(String, u128)>)
    ensures
        r@.len() == mint_entries(*c).len(),
        forall|i: int| 0 <= i < r@.len() ==> (#[trigger] r@[i]).0@ == mint_entries(*c)[i].0
            && r@[i].1 == mint_entries(*c)[i].1.1,
{
    c.iter().map(|(k, e)| (k.clone(), e.last_update_ns)).collect()
}

/// Whether an entry put at `t` has outlived `ttl` at `now`; a time after
/// `now` counts as no age at all.
pub open spec fn expired(t: u128, now: u128, ttl: u128) -> bool {
    (if now >= t {
        now - t
    } else {
        0
    }) >= ttl
}

/// Whether an entry put at `t` is still fresh at `now`: not later than
/// `now`, and younger than `ttl`.
pub open spec fn fresh(t: u128, now: u128, ttl: u128) -> bool {
    now >= t && now - t < ttl
}

/// `r` is what a lookup of `k` in the mint cache entries `s` answers at
/// `now`: the messages of `k` if its entry is still fresh, else nothing.
pub open spec fn lookup_answers(s: Seq<(Seq<char>, MintEntry)>, k: Seq<char>, now: u128, ttl: u128, r: Option<Vec<QueryResult>>) -> bool {
    let i = key_index(s, k);
    if i >= 0 && fresh(s[i].1.1, now, ttl) {
        r matches Some(m) && m@ == s[i].1.0
    } else {
        r is None
    }
}

/// The entries of `s` whose key is not in `r`, in order.
pub open spec fn without_keys<K, V>(s: Seq<(K, V)>, r: Set<K>) -> Seq<(K, V)>
    decreases s.len(),
{
    if s.len() == 0 {
        s
    } else if r.contains(s[0].0) {
        without_keys(s.drop_first(), r)
    } else {
        seq![s[0]] + without_keys(s.drop_first(), r)
    }
}

/// The entries of `s` that have not outlived `ttl` at `now`, in order.
pub open spec fn unexpired(s: Seq<(Seq<char>, MintEntry)>, now: u128, ttl: u128) -> Seq<(Seq<char>, MintEntry)>
    decreases s.len(),
{
    if s.len() == 0 {
        s
    } else if expired(s[0].1.1, now, ttl) {
        unexpired(s.drop_first(), now, ttl)
    } else {
        seq![s[0]] + unexpired(s.drop_first(), now, ttl)
    }
}

proof fn lemma_without_absent<K, V>(s: Seq<(K, V)>, r: Set<K>)
    requires
        forall|i: int| 0 <= i < s.len() ==> !r.contains(#[trigger] s[i].0),
    ensures
        without_keys(s, r) == s,
    decreases s.len(),
{
    if s.len() > 0 {
        assert(!r.contains(s[0].0));
        assert forall|i: int| 0 <= i < s.drop_first().len() implies !r.contains(#[trigger] s.drop_first()[i].0) by {
            assert(s.drop_first()[i] == s[i + 1]);
        }
        lemma_without_absent(s.drop_first(), r);
        assert(s =~= seq![s[0]] + s.drop_first());
    }
}

proof fn lemma_key_index<K, V>(s: Seq<(K, V)>, k: K)
    ensures
        -1 <= key_index(s, k) < s.len(),
        key_index(s, k) >= 0 ==> s[key_index(s, k)].0 == k,
        key_index(s, k) < 0 ==> forall|i: int| 0 <= i < s.len() ==> s[i].0 != k,
    decreases s.len(),
{
    if s.len() > 0 && s[0].0 != k {
        lemma_key_index(s.drop_first(), k);
        if key_index(s, k) < 0 {
            assert forall|i: int| 0 <= i < s.len() implies s[i].0 != k by {
                if i > 0 {
                    assert(s[i] == s.drop_first()[i - 1]);
                }
            }
        }
    }
}

proof fn lemma_pop_is_without<K, V>(s: Seq<(K, V)>, k: K)
    requires
        distinct_keys(s),
    ensures
        after_pop(s, k) == without_keys(s, set![k]),
    decreases s.len(),
{
    lemma_key_index(s, k);
    if s.len() == 0 {
    } else if s[0].0 == k {
        assert forall|i: int| 0 <= i < s.drop_first().len() implies !set![k].contains(#[trigger] s.drop_first()[i].0) by {
            assert(s.drop_first()[i] == s[i + 1]);
        }
        lemma_without_absent(s.drop_first(), set![k]);
        assert(s.remove(0) =~= s.drop_first());
    } else {
        let t = s.drop_first();
        assert(distinct_keys(t)) by {
            assert forall|i: int, j: int| 0 <= i < j < t.len() implies t[i].0 != t[j].0 by {
                assert(t[i] == s[i + 1]);
                assert(t[j] == s[j + 1]);
            }
        }
        lemma_pop_is_without(t, k);
        lemma_key_index(t, k);
        if key_index(t, k) >= 0 {
            assert(s.remove(key_index(s, k)) =~= seq![s[0]] + t.remove(key_index(t, k)));
        } else {
            lemma_without_absent(t, set![k]);
            assert(s =~= seq![s[0]] + t);
        }
    }
}

proof fn lemma_without_twice<K, V>(s: Seq<(K, V)>, r: Set<K>, k: K)
    ensures
        without_keys(without_keys(s, r), set![k]) == without_keys(s, r.insert(k)),
    decreases s.len(),
{
    if s.len() > 0 {
        lemma_without_twice(s.drop_first(), r, k);
        if !r.contains(s[0].0) {
            let w = seq![s[0]] + without_keys(s.drop_first(), r);
            assert(w.drop_first() =~= without_keys(s.drop_first(), r));
            assert(w[0] == s[0]);
        }
    }
}

proof fn lemma_without_is_unexpired(s: Seq<(Seq<char>, MintEntry)>, r: Set<Seq<char>>, now: u128, ttl: u128)
    requires
        forall|i: int| 0 <= i < s.len() ==> (r.contains(#[trigger] s[i].0) <==> expired(s[i].1.1, now, ttl)),
    ensures
        without_keys(s, r) == unexpired(s, now, ttl),
    decreases s.len(),
{
    if s.len() > 0 {
        assert(r.contains(s[0].0) <==> expired(s[0].1.1, now, ttl));
        assert forall|i: int| 0 <= i < s.drop_first().len() implies (r.contains(#[trigger] s.drop_first()[i].0)
            <==> expired(s.drop_first()[i].1.1, now, ttl)) by {
            assert(s.drop_first()[i] == s[i + 1]);
        }
        lemma_without_is_unexpired(s.drop_first(), r, now, ttl);
    }
}

proof fn lemma_get_keeps_len<K, V>(s: Seq<(K, V)>, k: K)
    ensures
        after_get(s, k).len() == s.len(),
{
    lemma_key_index(s, k);
}

proof fn lemma_pop_shrinks<K, V>(s: Seq<(K, V)>, k: K)
    ensures
        after_pop(s, k).len() <= s.len(),
{
    lemma_key_index(s, k);
}

proof fn lemma_unexpired_shrinks(s: Seq<(Seq<char>, MintEntry)>, now: u128, ttl: u128)
    ensures
        unexpired(s, now, ttl).len() <= s.len(),
    decreases s.len(),
{
    if s.len() > 0 {
        lemma_unexpired_shrinks(s.drop_first(), now, ttl);
    }
}

/// Law: right after `v` is put under `k` into an LRU cache, whatever it held
/// before, a lookup of `k` finds `v`, and it is the most recently used entry.
pub proof fn law_put_then_get<K, V>(s: Seq<(K, V)>, k: K, v: V, cap: nat)
    ensures
        key_index(after_put(s, k, v, cap), k) == 0,
        after_put(s, k, v, cap)[0] == (k, v),
{
}

/// Law: an LRU cache never holds more entries than its capacity: a put keeps
/// a cache that is within its capacity within it.
pub proof fn law_put_respects_capacity<K, V>(s: Seq<(K, V)>, k: K, v: V, cap: nat)
    requires
        cap >= 1,
        s.len() <= cap,
    ensures
        after_put(s, k, v, cap).len() <= cap,
{
    lemma_key_index(s, k);
}

/// Law: once the entry of `k` is removed from an LRU cache with distinct
/// keys, a lookup of `k` finds nothing.
pub proof fn law_pop_then_miss<K, V>(s: Seq<(K, V)>, k: K)
    requires
        distinct_keys(s),
    ensures
        key_index(after_pop(s, k), k) < 0,
{
    lemma_pop_is_without(s, k);
    lemma_without_drops(s, set![k]);
    let t = after_pop(s, k);
    lemma_key_index(t, k);
    if key_index(t, k) >= 0 {
        assert(!set![k].contains(t[key_index(t, k)].0));
    }
}

/// Law: a lookup changes what an LRU cache holds only in its order: the same
/// entries, with the one found moved to the front.
pub proof fn law_get_keeps_entries<K, V>(s: Seq<(K, V)>, k: K)
    ensures
        after_get(s, k).to_multiset() == s.to_multiset(),
{
    lemma_key_index(s, k);
    let i = key_index(s, k);
    if i >= 0 {
        broadcast use vstd::seq_lib::group_to_multiset_ensures;
        assert(s =~= s.take(i) + seq![s[i]] + s.skip(i + 1));
        assert(s.remove(i) =~= s.take(i) + s.skip(i + 1));
        assert((seq![s[i]] + s.remove(i)).to_multiset() =~= s.to_multiset()) by {
            vstd::seq_lib::lemma_multiset_commutative(seq![s[i]], s.remove(i));
            vstd::seq_lib::lemma_multiset_commutative(s.take(i), seq![s[i]] + s.skip(i + 1));
            vstd::seq_lib::lemma_multiset_commutative(seq![s[i]], s.skip(i + 1));
            vstd::seq_lib::lemma_multiset_commutative(s.take(i), s.skip(i + 1));
            assert(s.take(i) + (seq![s[i]] + s.skip(i + 1)) =~= s);
            assert(seq![s[i]] + s.skip(i + 1) + s.take(i) =~= seq![s[i]] + (s.skip(i + 1) + s.take(i)));
            vstd::seq_lib::lemma_multiset_commutative(seq![s[i]], s.skip(i + 1) + s.take(i));
            vstd::seq_lib::lemma_multiset_commutative(s.skip(i + 1), s.take(i));
        }
    }
}

/// Law: a hit of the mint cache returns exactly the messages of an entry
/// for the mint looked up, and only while that entry is fresh.
pub proof fn law_hit_is_a_fresh_entry(s: Seq<(Seq<char>, MintEntry)>, k: Seq<char>, now: u128, ttl: u128, r: Option<Vec<QueryResult>>)
    requires
        lookup_answers(s, k, now, ttl, r),
    ensures
        r matches Some(v) ==> exists|i: int| 0 <= i < s.len() && (#[trigger] s[i]).0 == k && v@ == s[i].1.0
            && s[i].1.1 <= now && now - s[i].1.1 < ttl,
        (forall|i: int| 0 <= i < s.len() ==> (#[trigger] s[i]).0 != k) ==> r is None,
{
    lemma_key_index(s, k);
}

/// Law: right after messages are put for a mint at `t`, a lookup of that
/// mint at any `now` from `t` until the time to live has passed returns
/// exactly those messages, all of them and in their order.
pub proof fn law_fresh_hit_returns_what_was_put(
    s: Seq<(Seq<char>, MintEntry)>,
    k: Seq<char>,
    msgs: Seq<QueryResult>,
    t: u128,
    cap: nat,
    now: u128,
    ttl: u128,
    r: Option<Vec<QueryResult>>,
)
    requires
        t <= now,
        now - t < ttl,
        lookup_answers(after_put(s, k, (msgs, t), cap), k, now, ttl, r),
    ensures
        r matches Some(v) && v@ == msgs,
{
    lemma_key_index(s, k);
}

/// Law: once the time to live has passed since messages were put for a
/// mint, or before they were put, a lookup of that mint right after the put
/// returns nothing.
pub proof fn law_stale_put_misses(
    s: Seq<(Seq<char>, MintEntry)>,
    k: Seq<char>,
    msgs: Seq<QueryResult>,
    t: u128,
    cap: nat,
    now: u128,
    ttl: u128,
    r: Option<Vec<QueryResult>>,
)
    requires
        now < t || now - t >= ttl,
        lookup_answers(after_put(s, k, (msgs, t), cap), k, now, ttl, r),
    ensures
        r is None,
{
    lemma_key_index(s, k);
}

/// Law: messages put into the mint cache at `t` are what a lookup at `now`
/// returns, as long as `now` is within the time to live of `t`.
pub proof fn law_mint_put_then_get(s: Seq<(Seq<char>, MintEntry)>, k: Seq<char>, msgs: Seq<QueryResult>, t: u128, cap: nat, now: u128, ttl: u128)
    requires
        fresh(t, now, ttl),
    ensures
        ({
            let s2 = after_put(s, k, (msgs, t), cap);
            let i = key_index(s2, k);
            i >= 0 && fresh(s2[i].1.1, now, ttl) && s2[i].1.0 == msgs
        }),
{
}

proof fn lemma_without_drops<K, V>(s: Seq<(K, V)>, r: Set<K>)
    ensures
        forall|i: int| 0 <= i < without_keys(s, r).len() ==> !r.contains(#[trigger] without_keys(s, r)[i].0),
    decreases s.len(),
{
    if s.len() > 0 {
        lemma_without_drops(s.drop_first(), r);
        if r.contains(s[0].0) {
            assert(without_keys(s, r) == without_keys(s.drop_first(), r));
        } else {
            let w = seq![s[0]] + without_keys(s.drop_first(), r);
            assert(without_keys(s, r) == w);
            assert forall|i: int| 0 <= i < w.len() implies !r.contains(#[trigger] w[i].0) by {
                if i > 0 {
                    assert(w[i] == without_keys(s.drop_first(), r)[i - 1]);
                }
            }
        }
    }
}

/// The keys of the first `i` entries of `s` that have outlived `ttl` at `now`.
pub open spec fn expired_keys(s: Seq<(Seq<char>, MintEntry)>, i: int, now: u128, ttl: u128) -> Set<Seq<char>> {
    Set::new(|k: Seq<char>| exists|j: int| 0 <= j < i && (#[trigger] s[j]).0 == k && expired(s[j].1.1, now, ttl))
}

/// A cache of the messages read for each mint, each valid for a fixed time.
pub struct MintCache {
    inner: LruCache<String, MintCacheEntry>,
    ttl_ns: u128,
}

impl MintCache {
    /// The entries, most recently used first.
    pub closed spec fn entries(&self) -> Seq<(Seq<char>, MintEntry)> {
        mint_entries(self.inner)
    }

    /// How long an entry stays valid, in nanoseconds.
    pub closed spec fn ttl(&self) -> u128 {
        self.ttl_ns
    }

    /// How many entries the cache holds at most.
    pub closed spec fn capacity(&self) -> nat {
        mint_capacity(self.inner)
    }

    /// The invariant: no two entries have the same mint, and the cache holds
    /// at most its capacity, which is at least one entry.
    pub closed spec fn wf(&self) -> bool {
        &&& distinct_keys(mint_entries(self.inner))
        &&& mint_capacity(self.inner) >= 1
        &&& mint_entries(self.inner).len() <= mint_capacity(self.inner)
    }

    /// Law: a mint cache never holds more entries than its capacity.
    pub proof fn law_mint_cache_within_capacity(&self)
        requires
            self.wf(),
        ensures
            self.capacity() >= 1,
            self.entries().len() <= self.capacity(),
    {
    }

    /// The invariant means that no two entries have the same mint.
    pub proof fn lemma_wf_distinct(&self)
        requires
            self.wf(),
        ensures
            distinct_keys(self.entries()),
    {
    }

    /// An empty cache of `capacity` entries (at least one), each valid for
    /// `ttl_seconds`.
    pub fn new(capacity: usize, ttl_seconds: u64) -> (r: Self)
        ensures
            r.wf(),
            r.entries() == Seq::<(Seq<char>, MintEntry)>::empty(),
            r.capacity() == if capacity == 0 { 1 } else { capacity as nat },
            r.ttl() == ttl_seconds * 1_000_000_000,
    {
        let cap = if capacity == 0 { 1 } else { capacity };
        let r = MintCache { inner: mint_new(cap), ttl_ns: ttl_seconds as u128 * 1_000_000_000 };
        assert(distinct_keys(r.entries()));
        r
    }

    /// The messages cached for `mint` if they are still fresh at `now` (a
    /// clock reading in nanoseconds); a hit, fresh or not, becomes the most
    /// recently used.
    pub fn get_at(&mut self, mint: &str, now: u128) -> (r: Option<Vec<QueryResult>>)
        requires
            old(self).wf(),
        ensures
            final(self).wf(),
            final(self).entries() == after_get(old(self).entries(), mint@),
            final(self).ttl() == old(self).ttl(),
            final(self).capacity() == old(self).capacity(),
            lookup_answers(old(self).entries(), mint@, now, old(self).ttl(), r),
    {
        let ttl = self.ttl_ns;
        proof {
            lemma_get_keeps_len(self.entries(), mint@);
        }
        match mint_get(&mut self.inner, mint) {
            None => None,
            Some(entry) => {
                if now >= entry.last_update_ns && now - entry.last_update_ns < ttl {
                    Some(duplicate_all(&entry.messages))
                } else {
                    None
                }
            },
        }
    }

    /// The messages cached for `mint` if they are still fresh now: what
    /// [`MintCache::get_at`] answers at some reading of the clock.
    pub fn get(&mut self, mint: &str) -> (r: Option<Vec<QueryResult>>)
        requires
            old(self).wf(),
        ensures
            final(self).wf(),
            final(self).entries() == after_get(old(self).entries(), mint@),
            final(self).ttl() == old(self).ttl(),
            final(self).capacity() == old(self).capacity(),
            exists|now: u128| #[trigger] lookup_answers(old(self).entries(), mint@, now, old(self).ttl(), r),
    {
        let now = crate::clock::now_nanos();
        self.get_at(mint, now)
    }

    /// Caches `messages` for `mint`, stamped `now`.
    pub fn put_at(&mut self, mint: String, messages: Vec<QueryResult>, now: u128)
        requires
            old(self).wf(),
        ensures
            final(self).wf(),
            final(self).entries() == after_put(old(self).entries(), mint@, (messages@, now), old(self).capacity()),
            final(self).ttl() == old(self).ttl(),
            final(self).capacity() == old(self).capacity(),
    {
        proof {
            law_put_respects_capacity(self.entries(), mint@, (messages@, now), self.capacity());
        }
        mint_put(&mut self.inner, mint, MintCacheEntry { messages, last_update_ns: now });
    }

    /// Caches `messages` for `mint`, stamped with the current time.
    pub fn put(&mut self, mint: String, messages: Vec<QueryResult>)
        requires
            old(self).wf(),
        ensures
            final(self).wf(),
            final(self).entries() == after_put(
                old(self).entries(),
                mint@,
                (messages@, final(self).entries()[0].1.1),
                old(self).capacity(),
            ),
            final(self).ttl() == old(self).ttl(),
            final(self).capacity() == old(self).capacity(),
    {
        let now = crate::clock::now_nanos();
        self.put_at(mint, messages, now);
    }

    /// Forgets what is cached for `mint`.
    pub fn invalidate(&mut self, mint: &str)
        requires
            old(self).wf(),
        ensures
            final(self).wf(),
            final(self).entries() == after_pop(old(self).entries(), mint@),
            final(self).ttl() == old(self).ttl(),
            final(self).capacity() == old(self).capacity(),
    {
        proof {
            lemma_pop_shrinks(self.entries(), mint@);
        }
        mint_pop(&mut self.inner, mint);
    }

    /// Forgets every entry that has outlived the time to live at `now`; the
    /// others keep their order.
    pub fn cleanup_expired_at(&mut self, now: u128)
        requires
            old(self).wf(),
        ensures
            final(self).wf(),
            final(self).entries() == unexpired(old(self).entries(), now, old(self).ttl()),
            final(self).ttl() == old(self).ttl(),
            final(self).capacity() == old(self).capacity(),
    {
        let ttl = self.ttl_ns;
        let ghost orig = self.entries();
        let stamps = mint_stamps(&self.inner);
        let mut i: usize = 0;
        proof {
            assert(expired_keys(orig, 0, now, ttl) =~= Set::<Seq<char>>::empty());
            assert forall|j: int| 0 <= j < orig.len() implies !Set::<Seq<char>>::empty().contains(#[trigger] orig[j].0) by {}
            lemma_without_absent(orig, Set::<Seq<char>>::empty());
        }
        while i < stamps.len()
            invariant
                i <= stamps@.len() == orig.len(),
                ttl == self.ttl_ns,
                self.ttl_ns == old(self).ttl_ns,
                orig == old(self).entries(),
                distinct_keys(orig),
                mint_capacity(self.inner) == mint_capacity(old(self).inner),
                distinct_keys(mint_entries(self.inner)),
                forall|j: int| 0 <= j < stamps@.len() ==> (#[trigger] stamps@[j]).0@ == orig[j].0 && stamps@[j].1 == orig[j].1.1,
                mint_entries(self.inner) == without_keys(orig, expired_keys(orig, i as int, now, ttl)),
            decreases stamps@.len() - i,
        {
            let t = stamps[i].1;
            let old_age: u128 = if now >= t { now - t } else { 0 };
            let ghost r = expired_keys(orig, i as int, now, ttl);
            if old_age >= ttl {
                let ghost before = mint_entries(self.inner);
                mint_pop(&mut self.inner, stamps[i].0.as_str());
                proof {
                    lemma_pop_is_without(before, orig[i as int].0);
                    lemma_without_twice(orig, r, orig[i as int].0);
                    assert(expired_keys(orig, i + 1, now, ttl) =~= r.insert(orig[i as int].0));
                }
            } else {
                proof {
                    assert forall|k: Seq<char>| expired_keys(orig, i + 1, now, ttl).contains(k) <==> r.contains(k) by {
                        if expired_keys(orig, i + 1, now, ttl).contains(k) {
                            let j = choose|j: int| 0 <= j < i + 1 && (#[trigger] orig[j]).0 == k && expired(orig[j].1.1, now, ttl);
                            assert(j != i);
                        }
                    }
                    assert(expired_keys(orig, i + 1, now, ttl) =~= r);
                }
            }
            i = i + 1;
        }
        proof {
            let r = expired_keys(orig, orig.len() as int, now, ttl);
            assert forall|m: int| 0 <= m < orig.len() implies (r.contains(#[trigger] orig[m].0) <==> expired(orig[m].1.1, now, ttl)) by {
                if r.contains(orig[m].0) {
                    let j = choose|j: int| 0 <= j < orig.len() && (#[trigger] orig[j]).0 == orig[m].0 && expired(orig[j].1.1, now, ttl);
                    assert(j == m);
                }
                if expired(orig[m].1.1, now, ttl) {
                    assert(orig[m].0 == orig[m].0);
                }
            }
            lemma_without_is_unexpired(orig, r, now, ttl);
            lemma_unexpired_shrinks(orig, now, ttl);
        }
    }

    /// Forgets every entry that has outlived the time to live now.
    pub fn cleanup_expired(&mut self)
        requires
            old(self).wf(),
        ensures
            final(self).wf(),
            exists|now: u128| final(self).entries() == unexpired(old(self).entries(), now, old(self).ttl()),
            final(self).ttl() == old(self).ttl(),
            final(self).capacity() == old(self).capacity(),
    {
        let now = crate::clock::now_nanos();
        self.cleanup_expired_at(now);
    }

    /// Forgets every entry.
    pub fn clear(&mut self)
        requires
            old(self).wf(),
        ensures
            final(self).wf(),
            final(self).entries() == Seq::<(Seq<char>, MintEntry)>::empty(),
            final(self).ttl() == old(self).ttl(),
            final(self).capacity() == old(self).capacity(),
    {
        mint_clear(&mut self.inner);
        assert(distinct_keys(mint_entries(self.inner)));
    }
}

} // verus!
