//! The read cache: per user, the encoded list of that user's cards, kept
//! for a bounded time. It is a derived view and never a source of truth.

use vstd::prelude::*;
use vstd::string::StringExecFns;

verus! {

/// How long a cached list stays valid, in seconds.
pub const CACHE_TTL_SECONDS: u32 = 3600;

/// The key under which the card list of `user_id` is cached.
pub open spec fn user_key(user_id: Seq<char>) -> Seq<char> {
    "user_cards_proto_v2:"@ + user_id
}

/// The key under which the card list of `user_id` is cached.
pub fn cache_key(user_id: &String) -> (key: String)
    ensures
        key@ == user_key(user_id@),
{
    let mut key = String::from_str("user_cards_proto_v2:");
    key.append(user_id.as_str());
    key
}

/// Two users never share a key.
pub proof fn lemma_user_key_injective(a: Seq<char>, b: Seq<char>)
    requires
        user_key(a) == user_key(b),
    ensures
        a == b,
{
    let prefix = "user_cards_proto_v2:"@;
    assert((prefix + a).subrange(prefix.len() as int, (prefix + a).len() as int) =~= a);
    assert((prefix + b).subrange(prefix.len() as int, (prefix + b).len() as int) =~= b);
}

/// One cached value and the second at which it stops being valid.
pub struct CacheEntry {
    pub key: String,
    pub value: Vec<u8>,
    pub expires_at: i64,
}

/// What a cache entry holds, as plain values.
pub struct EntryView {
    pub key: Seq<char>,
    pub value: Seq<u8>,
    pub expires_at: i64,
}

impl View for CacheEntry {
    type V = EntryView;

    open spec fn view(&self) -> EntryView {
        EntryView { key: self.key@, value: self.value@, expires_at: self.expires_at }
    }
}

/// The second at which a value stored at `now` for `seconds` expires,
/// held to the largest second there is.
pub open spec fn expiry(now: i64, seconds: u32) -> i64 {
    if now + seconds > i64::MAX {
        i64::MAX
    } else {
        (now + seconds) as i64
    }
}

/// The value cached under `key` at the second `now`: that of the first
/// entry with this key, if it has not expired.
pub open spec fn lookup(entries: Seq<EntryView>, key: Seq<char>, now: i64) -> Option<Seq<u8>>
    decreases entries.len(),
{
    if entries.len() == 0 {
        None
    } else if entries[0].key == key {
        if now < entries[0].expires_at {
            Some(entries[0].value)
        } else {
            None
        }
    } else {
        lookup(entries.drop_first(), key, now)
    }
}

/// The entries that are left when every entry under `key` is deleted.
pub open spec fn without(entries: Seq<EntryView>, key: Seq<char>) -> Seq<EntryView>
    decreases entries.len(),
{
    if entries.len() == 0 {
        Seq::empty()
    } else if entries.last().key == key {
        without(entries.drop_last(), key)
    } else {
        without(entries.drop_last(), key).push(entries.last())
    }
}

/// The entries after `value` was stored under `key`: what was there
/// under this key is replaced.
pub open spec fn stored(entries: Seq<EntryView>, key: Seq<char>, value: Seq<u8>, expires_at: i64) -> Seq<
    EntryView,
> {
    without(entries, key).push(EntryView { key, value, expires_at })
}

/// Every entry that deletion leaves was there before, under another key.
pub proof fn lemma_without_keeps(entries: Seq<EntryView>, key: Seq<char>, i: int)
    requires
        0 <= i < without(entries, key).len(),
    ensures
        without(entries, key)[i].key != key,
        exists|j: int| 0 <= j < entries.len() && entries[j] == without(entries, key)[i],
    decreases entries.len(),
{
    if entries.len() > 0 {
        let rest = without(entries.drop_last(), key);
        if i < rest.len() {
            lemma_without_keeps(entries.drop_last(), key, i);
            let j = choose|j: int|
                0 <= j < entries.drop_last().len() && entries.drop_last()[j] == rest[i];
            assert(entries[j] == without(entries, key)[i]);
        } else {
            assert(entries[entries.len() - 1] == without(entries, key)[i]);
        }
    }
}

/// After deletion nothing is found under the key.
pub proof fn lemma_without_misses(entries: Seq<EntryView>, key: Seq<char>, now: i64)
    ensures
        lookup(without(entries, key), key, now).is_none(),
{
    let left = without(entries, key);
    assert forall|i: int| 0 <= i < left.len() implies (#[trigger] left[i]).key != key by {
        lemma_without_keeps(entries, key, i);
    }
    lemma_lookup_absent(left, key, now);
}

/// Where no entry has the key, nothing is found under it.
pub proof fn lemma_lookup_absent(entries: Seq<EntryView>, key: Seq<char>, now: i64)
    requires
        forall|i: int| 0 <= i < entries.len() ==> (#[trigger] entries[i]).key != key,
    ensures
        lookup(entries, key, now).is_none(),
    decreases entries.len(),
{
    if entries.len() > 0 {
        assert(entries[0].key != key);
        assert forall|i: int| 0 <= i < entries.drop_first().len() implies (
        #[trigger] entries.drop_first()[i]).key != key by {
            assert(entries[i + 1].key != key);
        }
        lemma_lookup_absent(entries.drop_first(), key, now);
    }
}

/// Whatever is found under a key is the value of an entry with that key.
pub proof fn lemma_lookup_found(entries: Seq<EntryView>, key: Seq<char>, now: i64)
    requires
        lookup(entries, key, now).is_some(),
    ensures
        exists|i: int|
            0 <= i < entries.len() && (#[trigger] entries[i]).key == key && entries[i].value
                == lookup(entries, key, now).unwrap(),
    decreases entries.len(),
{
    if entries[0].key == key {
        assert(entries[0].value == lookup(entries, key, now).unwrap());
    } else {
        lemma_lookup_found(entries.drop_first(), key, now);
        let i = choose|i: int|
            0 <= i < entries.drop_first().len() && (#[trigger] entries.drop_first()[i]).key == key
                && entries.drop_first()[i].value == lookup(entries.drop_first(), key, now).unwrap();
        assert(entries[i + 1].key == key);
    }
}

/// What a cache holds: its entries, oldest first.
pub struct CacheView {
    pub entries: Seq<EntryView>,
}

/// A cache held in memory. Time is handed in with each call, in seconds.
pub struct MemoryCache {
    entries: Vec<CacheEntry>,
}

impl View for MemoryCache {
    type V = CacheView;

    closed spec fn view(&self) -> CacheView {
        CacheView { entries: self.entries@.map_values(|e: CacheEntry| e@) }
    }
}

impl MemoryCache {
    /// A cache with nothing in it.
    pub fn new() -> (cache: MemoryCache)
        ensures
            cache@.entries.len() == 0,
    {
        MemoryCache { entries: Vec::new() }
    }

    /// The bytes cached under `key`, if there are any that have not
    /// expired at the second `now`.
    pub fn get(&self, key: &String, now: i64) -> (found: Option<Vec<u8>>)
        ensures
            match lookup(self@.entries, key@, now) {
                Some(value) => found.is_some() && found.unwrap()@ == value,
                None => found.is_none(),
            },
    {
        let mut i: usize = 0;
        assert(self@.entries.skip(0) =~= self@.entries);
        while i < self.entries.len()
            invariant
                i <= self.entries.len(),
                lookup(self@.entries, key@, now) == lookup(self@.entries.skip(i as int), key@, now),
            decreases self.entries.len() - i,
        {
            let ghost rest = self@.entries.skip(i as int);
            assert(rest[0] == self.entries[i as int]@);
            if self.entries[i].key == *key {
                if now < self.entries[i].expires_at {
                    let value = self.entries[i].value.clone();
                    assert(value@ =~= self.entries[i as int].value@);
                    return Some(value);
                } else {
                    return None;
                }
            }
            assert(rest.drop_first() =~= self@.entries.skip(i + 1));
            i += 1;
        }
        None
    }

    /// Deletes whatever is cached under `key`.
    pub fn del(&mut self, key: &String)
        ensures
            final(self)@.entries == without(old(self)@.entries, key@),
    {
        let mut i: usize = 0;
        let ghost mut j: int = 0;
        assert(old(self)@.entries.take(0) =~= Seq::empty());
        assert(self@.entries.take(0) =~= Seq::empty());
        assert(self.entries@.skip(0) =~= old(self).entries@.skip(0));
        while i < self.entries.len()
            invariant
                i <= self.entries.len(),
                0 <= j <= old(self).entries.len(),
                self.entries.len() - i == old(self).entries.len() - j,
                self@.entries.take(i as int) == without(old(self)@.entries.take(j), key@),
                self.entries@.skip(i as int) == old(self).entries@.skip(j),
            decreases self.entries.len() - i,
        {
            proof {
                assert(self.entries@.skip(i as int)[0] == old(self).entries@.skip(j)[0]);
                assert(self.entries[i as int] == old(self).entries[j]);
                assert(old(self)@.entries.take(j + 1).drop_last() =~= old(self)@.entries.take(j));
                assert(old(self)@.entries.take(j + 1).last() == old(self).entries[j]@);
            }
            if self.entries[i].key == *key {
                let ghost before = self.entries@;
                self.entries.remove(i);
                proof {
                    assert(self.entries@.skip(i as int) =~= before.skip(i as int).skip(1));
                    assert(old(self).entries@.skip(j + 1) =~= old(self).entries@.skip(j).skip(1));
                    assert(self@.entries.take(i as int) =~= before.map_values(
                        |e: CacheEntry| e@,
                    ).take(i as int));
                    j = j + 1;
                }
            } else {
                proof {
                    assert(self@.entries.take(i + 1) =~= self@.entries.take(i as int).push(
                        self.entries[i as int]@,
                    ));
                    assert(self.entries@.skip(i + 1) =~= self.entries@.skip(i as int).skip(1));
                    assert(old(self).entries@.skip(j + 1) =~= old(self).entries@.skip(j).skip(1));
                    j = j + 1;
                }
                i += 1;
            }
        }
        proof {
            assert(self@.entries.take(i as int) =~= self@.entries);
            assert(old(self)@.entries.take(j) =~= old(self)@.entries);
        }
    }

    /// Stores `value` under `key` for `seconds` from the second `now`,
    /// in place of whatever was cached under this key.
    pub fn set_ex(&mut self, key: String, value: Vec<u8>, seconds: u32, now: i64)
        ensures
            final(self)@.entries == stored(
                old(self)@.entries,
                key@,
                value@,
                expiry(now, seconds),
            ),
    {
        self.del(&key);
        let expires_at = match now.checked_add(seconds as i64) {
            Some(at) => at,
            None => i64::MAX,
        };
        let entry = CacheEntry { key, value, expires_at };
        self.entries.push(entry);
        assert(self@.entries =~= stored(old(self)@.entries, key@, value@, expiry(now, seconds)));
    }
}

} // verus!
