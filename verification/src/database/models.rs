//! Rows of the message store as the rest of the library sees them.

use vstd::prelude::*;

verus! {

/// A message as it is written to the store.
#[derive(Debug, Clone)]
pub struct StoredMessage {
    pub chat_id: i64,
    pub chat_name: String,
    pub text: String,
    pub timestamp_us: i64,
}

/// A message as a query reads it back.
#[derive(Debug, Clone)]
pub struct QueryResult {
    pub chat_id: i64,
    pub chat_name: String,
    pub text: String,
    pub timestamp_us: i64,
}

impl QueryResult {
    /// A field-by-field copy.
    pub fn duplicate(&self) -> (r: QueryResult)
        ensures
            r == *self,
    {
        QueryResult {
            chat_id: self.chat_id,
            chat_name: self.chat_name.clone(),
            text: self.text.clone(),
            timestamp_us: self.timestamp_us,
        }
    }
}

/// A copy of every message of `msgs`, in order.
pub fn duplicate_all(msgs: &Vec<QueryResult>) -> (r: Vec<QueryResult>)
    ensures
        r@ == msgs@,
{
    let mut r: Vec<QueryResult> = Vec::new();
    let mut i: usize = 0;
    while i < msgs.len()
        invariant
            i <= msgs@.len(),
            r@ == msgs@.take(i as int),
        decreases msgs@.len() - i,
    {
        r.push(msgs[i].duplicate());
        i = i + 1;
        assert(r@ =~= msgs@.take(i as int));
    }
    assert(msgs@.take(msgs@.len() as int) =~= msgs@);
    r
}

/// A chat as a pair of its id and its name.
pub type ChatEntry = (i64, String);

/// Counts over the whole message store.
#[derive(Debug, Clone)]
pub struct StoreStats {
    pub total_messages: i64,
    pub unique_mints: i64,
    pub unique_chats: i64,
    pub oldest_message_us: Option<i64>,
    pub newest_message_us: Option<i64>,
}

} // verus!
