//! The message store's state on this side of the database connection: the
//! caches and the text codec, and the decisions made around each query.
//! The queries themselves are made by the caller, who hands over the rows.

use vstd::prelude::*;
use crate::config::DatabaseConfig;
use crate::database::cache::{after_get, after_pop, after_put, key_index, law_pop_then_miss, law_put_then_get, lookup_answers, ChatCache, MintCache};
use crate::database::codec::{decode_error_prefix, decode_text, decoded_text, encode_text, encoded_text, escaped, normalize_text, MAX_DECOMPRESSED};
use crate::database::models::QueryResult;

verus! {

/// One row of a message query, as the database returns it.
#[derive(Debug, Clone)]
pub struct MessageRow {
    pub chat_id: i64,
    pub chat_name: String,
    pub text: Vec<u8>,
    pub timestamp_us: i64,
    pub compressed: bool,
}

/// `q` is `row` read back, its text decoded to `text`.
pub open spec fn row_read(row: MessageRow, text: Seq<char>, q: QueryResult) -> bool {
    &&& q.chat_id == row.chat_id
    &&& q.chat_name@ == row.chat_name@
    &&& q.text@ == text
    &&& q.timestamp_us == row.timestamp_us
}

/// Every row of `rows` decodes.
pub open spec fn rows_decode(rows: Seq<MessageRow>) -> bool {
    forall|i: int| 0 <= i < rows.len() ==> (decoded_text((#[trigger] rows[i]).text@, rows[i].compressed) is Some)
}

/// The number of mint cache entries that `cache_size_mb` megabytes hold, at
/// about one kilobyte per entry.
pub open spec fn capacity_entries(cache_size_mb: usize) -> int {
    let mb = if cache_size_mb == 0 { 1 } else { cache_size_mb as int };
    let n = (mb * 1048576) / 1024;
    if n == 0 { 1 } else { n }
}

/// The cut-off time of a cleanup at `now_us` for `max_age_seconds`: the
/// messages stamped before it are deleted. It is `i64::MIN`, deleting
/// nothing, when the age reaches back further than that.
pub open spec fn cutoff_value(now_us: i64, max_age_seconds: u64) -> int {
    let v = now_us - max_age_seconds * 1_000_000;
    if v >= i64::MIN {
        v
    } else {
        i64::MIN as int
    }
}

/// The caches and codec settings in front of the message store.
pub struct DatabaseManager {
    chat_cache: ChatCache,
    mint_cache: MintCache,
    config: DatabaseConfig,
}

impl DatabaseManager {
    /// The chat cache.
    pub closed spec fn chats(&self) -> ChatCache {
        self.chat_cache
    }

    /// The mint cache.
    pub closed spec fn mints(&self) -> MintCache {
        self.mint_cache
    }

    /// The store's configuration.
    pub closed spec fn settings(&self) -> DatabaseConfig {
        self.config
    }

    /// The invariant of both caches.
    pub closed spec fn wf(&self) -> bool {
        self.chat_cache.wf() && self.mint_cache.wf()
    }

    /// Law: once a message about `mint` from chat `chat_id` named
    /// `chat_name` is recorded as stored ([`DatabaseManager::record_stored`]),
    /// the chat cache knows the chat both ways and the mint cache holds
    /// nothing for `mint`, so the next read of the mint goes to the store.
    pub proof fn law_store_refreshes_caches(dm: DatabaseManager, mint: Seq<char>, chat_id: i64, chat_name: Seq<char>)
        requires
            dm.wf(),
        ensures
            key_index(after_pop(dm.mints().entries(), mint), mint) < 0,
            ({
                let names = after_put(dm.chats().names(), chat_id, chat_name, dm.chats().capacity());
                key_index(names, chat_id) >= 0 && names[key_index(names, chat_id)].1 == chat_name
            }),
            ({
                let ids = after_put(dm.chats().ids(), chat_name, chat_id, dm.chats().capacity());
                key_index(ids, chat_name) >= 0 && ids[key_index(ids, chat_name)].1 == chat_id
            }),
    {
        dm.mint_cache.lemma_wf_distinct();
        law_pop_then_miss(dm.mints().entries(), mint);
        law_put_then_get(dm.chats().names(), chat_id, chat_name, dm.chats().capacity());
        law_put_then_get(dm.chats().ids(), chat_name, chat_id, dm.chats().capacity());
    }

    /// The state for `config`: empty caches, ten thousand chats each way and
    /// as many mint entries as the configured megabytes hold.
    pub fn new(config: DatabaseConfig) -> (r: Self)
        requires
            config.cache_size_mb <= usize::MAX / 1048576,
        ensures
            r.wf(),
            r.settings() == config,
            r.chats().names().len() == 0,
            r.chats().ids().len() == 0,
            r.chats().capacity() == 10000,
            r.mints().entries().len() == 0,
            r.mints().capacity() == capacity_entries(config.cache_size_mb),
            r.mints().ttl() == config.cache_ttl_seconds * 1_000_000_000,
    {
        let capacity = Self::cache_capacity_entries(config.cache_size_mb);
        let ttl = config.cache_ttl_seconds;
        DatabaseManager {
            chat_cache: ChatCache::new(10000),
            mint_cache: MintCache::new(capacity, ttl),
            config,
        }
    }

    /// How many mint cache entries `cache_size_mb` megabytes hold.
    pub fn cache_capacity_entries(cache_size_mb: usize) -> (r: usize)
        requires
            cache_size_mb <= usize::MAX / 1048576,
        ensures
            r == capacity_entries(cache_size_mb),
            r >= 1,
    {
        let mb = if cache_size_mb == 0 { 1 } else { cache_size_mb };
        let bytes = mb * 1024 * 1024;
        let approx_entry_size: usize = 1024;
        let n = bytes / approx_entry_size;
        if n == 0 { 1 } else { n }
    }

    /// The bytes that `text` is stored as once its newlines are escaped (if
    /// `escape_newlines`), and whether they are compressed (as configured).
    pub fn prepare_message(&self, text: &str, escape_newlines: bool) -> (r: Result<(Vec<u8>, bool), String>)
        ensures
            ({
                let t = if escape_newlines { escaped(text@) } else { text@ };
                &&& r matches Ok((bytes, c)) && c == self.settings().compress_messages
                    && bytes@ == encoded_text(t, c)
                &&& (!self.settings().compress_messages || vstd::utf8::encode_utf8(t).len() <= MAX_DECOMPRESSED)
                    ==> (r matches Ok((bytes, c)) && decoded_text(bytes@, c) == Some(t))
            }),
    {
        let normalized = normalize_text(text, escape_newlines);
        encode_text(normalized.as_str(), self.config.compress_messages)
    }

    /// Remembers `chat_name` for `chat_id` (both ways).
    pub fn insert_chat_cache(&mut self, chat_id: i64, chat_name: String)
        requires
            old(self).wf(),
        ensures
            final(self).wf(),
            final(self).settings() == old(self).settings(),
            final(self).mints() == old(self).mints(),
            final(self).chats().names() == after_put(old(self).chats().names(), chat_id, chat_name@, old(self).chats().capacity()),
            final(self).chats().ids() == after_put(old(self).chats().ids(), chat_name@, chat_id, old(self).chats().capacity()),
            final(self).chats().capacity() == old(self).chats().capacity(),
    {
        self.chat_cache.insert(chat_id, chat_name);
    }

    /// Forgets the cached messages of `mint`.
    pub fn invalidate_mint_cache(&mut self, mint: &str)
        requires
            old(self).wf(),
        ensures
            final(self).wf(),
            final(self).settings() == old(self).settings(),
            final(self).chats() == old(self).chats(),
            final(self).mints().entries() == after_pop(old(self).mints().entries(), mint@),
            final(self).mints().ttl() == old(self).mints().ttl(),
            final(self).mints().capacity() == old(self).mints().capacity(),
    {
        self.mint_cache.invalidate(mint);
    }

    /// What the caches learn once a message about `mint` from chat `chat_id`
    /// named `chat_name` is stored: the chat's name and id, and that the
    /// mint's cached messages are out of date.
    pub fn record_stored(&mut self, mint: &str, chat_id: i64, chat_name: &str)
        requires
            old(self).wf(),
        ensures
            final(self).wf(),
            final(self).settings() == old(self).settings(),
            final(self).chats().names() == after_put(old(self).chats().names(), chat_id, chat_name@, old(self).chats().capacity()),
            final(self).chats().ids() == after_put(old(self).chats().ids(), chat_name@, chat_id, old(self).chats().capacity()),
            final(self).chats().capacity() == old(self).chats().capacity(),
            final(self).mints().entries() == after_pop(old(self).mints().entries(), mint@),
            final(self).mints().ttl() == old(self).mints().ttl(),
            final(self).mints().capacity() == old(self).mints().capacity(),
    {
        self.insert_chat_cache(chat_id, chat_name.to_owned());
        self.invalidate_mint_cache(mint);
    }

    /// A message row read back, its text decoded.
    pub fn map_message_row(&self, row: &MessageRow) -> (r: Result<QueryResult, String>)
        ensures
            r is Ok <==> decoded_text(row.text@, row.compressed) is Some,
            r matches Ok(q) ==> row_read(*row, decoded_text(row.text@, row.compressed)->0, q),
            r matches Err(e) ==> decode_error_prefix(row.text@, row.compressed).is_prefix_of(e@),
    {
        let text = decode_text(row.text.as_slice(), row.compressed)?;
        Ok(QueryResult {
            chat_id: row.chat_id,
            chat_name: row.chat_name.clone(),
            text,
            timestamp_us: row.timestamp_us,
        })
    }

    /// The cached messages of `mint` when the cache is to be used and holds
    /// fresh ones at `now`.
    pub fn cached_messages_at(&mut self, mint: &str, use_cache: bool, now: u128) -> (r: Option<Vec<QueryResult>>)
        requires
            old(self).wf(),
        ensures
            final(self).wf(),
            final(self).settings() == old(self).settings(),
            final(self).chats() == old(self).chats(),
            final(self).mints().ttl() == old(self).mints().ttl(),
            final(self).mints().capacity() == old(self).mints().capacity(),
            final(self).mints().entries() == (if use_cache {
                after_get(old(self).mints().entries(), mint@)
            } else {
                old(self).mints().entries()
            }),
            use_cache ==> lookup_answers(old(self).mints().entries(), mint@, now, old(self).mints().ttl(), r),
            !use_cache ==> r is None,
    {
        if use_cache {
            self.mint_cache.get_at(mint, now)
        } else {
            None
        }
    }

    /// The cached messages of `mint` when the cache is to be used and holds
    /// fresh ones now (what [`DatabaseManager::cached_messages_at`] answers
    /// at some reading of the clock); nothing is looked up otherwise.
    pub fn cached_messages(&mut self, mint: &str, use_cache: bool) -> (r: Option<Vec<QueryResult>>)
        requires
            old(self).wf(),
        ensures
            final(self).wf(),
            final(self).settings() == old(self).settings(),
            final(self).chats() == old(self).chats(),
            final(self).mints().ttl() == old(self).mints().ttl(),
            final(self).mints().capacity() == old(self).mints().capacity(),
            final(self).mints().entries() == (if use_cache {
                after_get(old(self).mints().entries(), mint@)
            } else {
                old(self).mints().entries()
            }),
            use_cache ==> exists|now: u128| #[trigger] lookup_answers(old(self).mints().entries(), mint@, now, old(self).mints().ttl(), r),
            !use_cache ==> r is None,
    {
        let now = crate::clock::now_nanos();
        self.cached_messages_at(mint, use_cache, now)
    }

    /// The cached messages of `mint` when the cache holds fresh ones now: what
    /// a lookup answers at some reading of the clock.
    pub fn try_get_cached_messages(&mut self, mint: &str) -> (r: Option<Vec<QueryResult>>)
        requires
            old(self).wf(),
        ensures
            final(self).wf(),
            final(self).settings() == old(self).settings(),
            final(self).chats() == old(self).chats(),
            final(self).mints().entries() == after_get(old(self).mints().entries(), mint@),
            final(self).mints().ttl() == old(self).mints().ttl(),
            final(self).mints().capacity() == old(self).mints().capacity(),
            exists|now: u128| #[trigger] lookup_answers(old(self).mints().entries(), mint@, now, old(self).mints().ttl(), r),
    {
        self.mint_cache.get(mint)
    }

    /// The messages of `mint` read from `rows`, in order; the first row that
    /// does not decode makes it an error. When the cache is to be used and
    /// there are messages, they are cached for `mint`, stamped `now`.
    pub fn messages_from_rows_at(&mut self, mint: &str, use_cache: bool, rows: Vec<MessageRow>, now: u128) -> (r: Result<Vec<QueryResult>, String>)
        requires
            old(self).wf(),
        ensures
            final(self).wf(),
            final(self).settings() == old(self).settings(),
            final(self).chats() == old(self).chats(),
            final(self).mints().ttl() == old(self).mints().ttl(),
            final(self).mints().capacity() == old(self).mints().capacity(),
            r is Ok <==> rows_decode(rows@),
            r matches Ok(msgs) ==> msgs@.len() == rows@.len() && forall|i: int| 0 <= i < rows@.len()
                ==> row_read(#[trigger] rows@[i], decoded_text(rows@[i].text@, rows@[i].compressed)->0, msgs@[i]),
            r matches Ok(msgs) ==> (if use_cache && msgs@.len() > 0 {
                final(self).mints().entries() == after_put(
                    old(self).mints().entries(),
                    mint@,
                    (msgs@, now),
                    old(self).mints().capacity(),
                )
            } else {
                final(self).mints().entries() == old(self).mints().entries()
            }),
            r is Err ==> final(self).mints().entries() == old(self).mints().entries(),
            r matches Err(e) ==> exists|i: int| #![trigger rows@[i]] 0 <= i < rows@.len() && rows_decode(rows@.take(i))
                && decoded_text(rows@[i].text@, rows@[i].compressed) is None
                && decode_error_prefix(rows@[i].text@, rows@[i].compressed).is_prefix_of(e@),
    {
        let n = rows.len();
        let ghost rs = rows@;
        let mut messages: Vec<QueryResult> = Vec::new();
        let mut i: usize = 0;
        while i < n
            invariant
                i <= n == rs.len(),
                rows@ == rs,
                *self == *old(self),
                old(self).wf(),
                messages@.len() == i,
                forall|j: int| 0 <= j < i ==> (decoded_text((#[trigger] rs[j]).text@, rs[j].compressed) is Some),
                forall|j: int| 0 <= j < i ==> row_read(#[trigger] rs[j], decoded_text(rs[j].text@, rs[j].compressed)->0, messages@[j]),
            decreases n - i,
        {
            match self.map_message_row(&rows[i]) {
                Ok(q) => messages.push(q),
                Err(e) => {
                    assert(!rows_decode(rs));
                    assert(rows_decode(rs.take(i as int))) by {
                        assert forall|j: int| 0 <= j < rs.take(i as int).len() implies
                            (decoded_text((#[trigger] rs.take(i as int)[j]).text@, rs.take(i as int)[j].compressed) is Some) by {
                            assert(rs.take(i as int)[j] == rs[j]);
                        }
                    }
                    return Err(e);
                },
            }
            i = i + 1;
        }
        if use_cache && messages.len() > 0 {
            let copy = crate::database::models::duplicate_all(&messages);
            self.mint_cache.put_at(mint.to_owned(), copy, now);
        }
        Ok(messages)
    }

    /// The messages of `mint` read from `rows`, cached (when the cache is to
    /// be used and there are messages) with the current time, as
    /// [`DatabaseManager::messages_from_rows_at`] does at some reading of the
    /// clock; an error leaves the cache as it was.
    pub fn messages_from_rows(&mut self, mint: &str, use_cache: bool, rows: Vec<MessageRow>) -> (r: Result<Vec<QueryResult>, String>)
        requires
            old(self).wf(),
        ensures
            final(self).wf(),
            final(self).settings() == old(self).settings(),
            final(self).chats() == old(self).chats(),
            final(self).mints().ttl() == old(self).mints().ttl(),
            final(self).mints().capacity() == old(self).mints().capacity(),
            r is Ok <==> rows_decode(rows@),
            r matches Ok(msgs) ==> msgs@.len() == rows@.len() && forall|i: int| 0 <= i < rows@.len()
                ==> row_read(#[trigger] rows@[i], decoded_text(rows@[i].text@, rows@[i].compressed)->0, msgs@[i]),
            r matches Ok(msgs) ==> (if use_cache && msgs@.len() > 0 {
                exists|t: u128| final(self).mints().entries() == #[trigger] after_put(
                    old(self).mints().entries(),
                    mint@,
                    (msgs@, t),
                    old(self).mints().capacity(),
                )
            } else {
                final(self).mints().entries() == old(self).mints().entries()
            }),
            r is Err ==> final(self).mints().entries() == old(self).mints().entries(),
            r matches Err(e) ==> exists|i: int| #![trigger rows@[i]] 0 <= i < rows@.len() && rows_decode(rows@.take(i))
                && decoded_text(rows@[i].text@, rows@[i].compressed) is None
                && decode_error_prefix(rows@[i].text@, rows@[i].compressed).is_prefix_of(e@),
    {
        let now = crate::clock::now_nanos();
        self.messages_from_rows_at(mint, use_cache, rows, now)
    }

    /// The cached name of chat `chat_id`; a hit becomes the most recently
    /// used.
    pub fn cached_chat_name(&mut self, chat_id: i64) -> (r: Option<String>)
        requires
            old(self).wf(),
        ensures
            final(self).wf(),
            final(self).settings() == old(self).settings(),
            final(self).mints() == old(self).mints(),
            final(self).chats().names() == after_get(old(self).chats().names(), chat_id),
            final(self).chats().ids() == old(self).chats().ids(),
            final(self).chats().capacity() == old(self).chats().capacity(),
            r is Some <==> key_index(old(self).chats().names(), chat_id) >= 0,
            r matches Some(n) ==> n@ == old(self).chats().names()[key_index(old(self).chats().names(), chat_id)].1,
    {
        self.chat_cache.get_name(chat_id)
    }

    /// The cached id of the chat named `chat_name`; a hit becomes the most
    /// recently used.
    pub fn cached_chat_id(&mut self, chat_name: &str) -> (r: Option<i64>)
        requires
            old(self).wf(),
        ensures
            final(self).wf(),
            final(self).settings() == old(self).settings(),
            final(self).mints() == old(self).mints(),
            final(self).chats().ids() == after_get(old(self).chats().ids(), chat_name@),
            final(self).chats().names() == old(self).chats().names(),
            final(self).chats().capacity() == old(self).chats().capacity(),
            r is Some <==> key_index(old(self).chats().ids(), chat_name@) >= 0,
            r matches Some(id) ==> id == old(self).chats().ids()[key_index(old(self).chats().ids(), chat_name@)].1,
    {
        self.chat_cache.get_id(chat_name)
    }

    /// The cut-off time of a cleanup at `now_us` for `max_age_seconds`.
    pub fn cutoff_from(now_us: i64, max_age_seconds: u64) -> (r: i64)
        ensures
            r == cutoff_value(now_us, max_age_seconds),
    {
        let v: i128 = now_us as i128 - max_age_seconds as i128 * 1_000_000;
        if v >= -0x8000_0000_0000_0000 {
            v as i64
        } else {
            -0x8000_0000_0000_0000
        }
    }

    /// The cut-off time of a cleanup now for `max_age_seconds`; a clock set
    /// before the Unix epoch counts as the epoch itself.
    pub fn cutoff_timestamp_us(max_age_seconds: u64) -> (r: i64)
        ensures
            exists|now: i64| now >= 0 && r == cutoff_value(now, max_age_seconds),
    {
        let now = match crate::clock::get_timestamp_micros() {
            Some(v) => v,
            None => 0,
        };
        Self::cutoff_from(now, max_age_seconds)
    }

    /// After a cleanup: the mint cache is emptied.
    pub fn after_cleanup(&mut self)
        requires
            old(self).wf(),
        ensures
            final(self).wf(),
            final(self).settings() == old(self).settings(),
            final(self).chats() == old(self).chats(),
            final(self).mints().entries().len() == 0,
            final(self).mints().ttl() == old(self).mints().ttl(),
            final(self).mints().capacity() == old(self).mints().capacity(),
    {
        let now = crate::clock::now_nanos();
        self.after_cleanup_at(now);
    }

    /// After a cleanup at `now`: the mint cache is emptied (and what expired
    /// at `now` is then dropped from it as well).
    pub fn after_cleanup_at(&mut self, now: u128)
        requires
            old(self).wf(),
        ensures
            final(self).wf(),
            final(self).settings() == old(self).settings(),
            final(self).chats() == old(self).chats(),
            final(self).mints().entries().len() == 0,
            final(self).mints().ttl() == old(self).mints().ttl(),
            final(self).mints().capacity() == old(self).mints().capacity(),
    {
        self.mint_cache.clear();
        self.mint_cache.cleanup_expired_at(now);
    }
}

} // verus!
