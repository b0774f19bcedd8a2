//! Deciding what a query line asks for, and composing the reply once the
//! message store has answered.
//!
//! A query is answered in steps: [`process_query`] reads the line and either
//! replies at once or names one store request; the caller performs it and
//! hands the answer to [`resume_query`], which again replies or names the
//! next request.

use vstd::prelude::*;
use crate::database::models::{ChatEntry, QueryResult, StoreStats};
use crate::query_server::parsing::{is_word, join_tail, join_words, law_name_argument_keeps_words, law_words_are_words, normalize_quoted, normalized, split_parts, words};
use crate::query_server::protocol::{
    CMD_CLEANUP, CMD_GET, CMD_HELP, GET_CHANNELS_WITH_MINTS, GET_CHANNEL_MINTS, GET_CHAT_ID,
    GET_CHAT_ID_FOR_NAME, GET_CHAT_NAME, GET_CONTEXTS_BY_CHANNEL, GET_MINT, GET_STATS,
};
use crate::text::{parse_i64, parse_u64, parsed_i64, parsed_u64, str_eq};

verus! {

/// One request to the message store.
#[derive(Debug)]
pub enum DbRequest {
    /// The messages stored for a mint, possibly from the cache.
    MessagesByMint { mint: String, use_cache: bool },
    /// The distinct chats that mentioned a mint.
    UniqueChatsForMint { mint: String },
    /// The name of a chat.
    ChatNameById { chat_id: i64 },
    /// The id of a chat; `echo_name` keeps the name in the reply.
    ChatIdByName { chat_name: String, echo_name: bool },
    /// Counts over the whole store.
    Stats,
    /// The chats that stored at least one context.
    ChatsWithAnyMint,
    /// The contexts stored for a chat id.
    MintsForChatId { chat_id: i64 },
    /// The contexts stored for a chat name.
    MintsForChatName { chat_name: String },
    /// The chats whose name contains a substring.
    ChannelsBySubstring { substring: String },
    /// The contexts of the chats whose name contains a substring; `channels`
    /// are the chats that the previous step found.
    ContextsBySubstring { substring: String, channels: Vec<ChatEntry> },
    /// Delete the messages older than the given age.
    Cleanup { max_age_seconds: u64 },
}

/// What the message store answered to a [`DbRequest`].
#[derive(Debug)]
pub enum DbAnswer {
    Messages(Result<Vec<QueryResult>, String>),
    Chats(Result<Vec<ChatEntry>, String>),
    ChatName(Option<String>),
    ChatId(Option<i64>),
    Stats(Result<StoreStats, String>),
    Names(Result<Vec<String>, String>),
    Deleted(Result<usize, String>),
}

/// The reply to a query.
#[derive(Debug)]
pub enum QueryReply {
    /// An error message.
    Error(String),
    /// An error message together with the list of commands.
    ErrorWithCommands(String),
    /// The list of commands.
    Help,
    MintMessages { mint: String, messages: Vec<QueryResult>, cached: bool },
    MintChats { mint: String, chats: Vec<ChatEntry> },
    ChatFound { chat_id: i64, chat_name: String },
    ChatIdOnly { chat_id: i64 },
    Stats(StoreStats),
    Channels { channels: Vec<ChatEntry> },
    ChannelMintsById { chat_id: i64, mints: Vec<String> },
    ChannelMintsByName { chat_name: String, mints: Vec<String> },
    Contexts { query: String, matched_channels: Vec<ChatEntry>, contexts: Vec<String> },
    Cleanup { deleted_messages: usize, max_age_seconds: u64 },
}

/// The next step of a query: a reply, or a request to the message store.
#[derive(Debug)]
pub enum QueryStep {
    Reply(QueryReply),
    Fetch(DbRequest),
}

/// The words that `parts` hold.
pub open spec fn views(parts: Seq<&str>) -> Seq<Seq<char>> {
    parts.map_values(|p: &str| p@)
}

/// `r` replies with the error message `m`.
pub open spec fn is_error(r: QueryStep, m: Seq<char>) -> bool {
    r matches QueryStep::Reply(QueryReply::Error(e)) && e@ == m
}

/// The name argument that starts at word `start` of `w`: the words from
/// there on joined by spaces, white space and quotes stripped.
pub open spec fn name_arg(w: Seq<Seq<char>>, start: int) -> Seq<char> {
    normalized(join_words(w.subrange(start, w.len() as int)))
}

/// The step for `GET mint ...`.
pub open spec fn get_mint_plan(w: Seq<Seq<char>>, r: QueryStep) -> bool {
    if w.len() < 3 {
        is_error(r, "Usage: GET mint <address> [--no-cache|--unique-chats]"@)
    } else if w.contains("--unique-chats"@) {
        r matches QueryStep::Fetch(DbRequest::UniqueChatsForMint { mint }) && mint@ == w[2]
    } else {
        r matches QueryStep::Fetch(DbRequest::MessagesByMint { mint, use_cache }) && mint@ == w[2]
            && use_cache == !w.contains("--no-cache"@)
    }
}

/// The step for `GET chat:id <id>`.
pub open spec fn get_chat_id_plan(w: Seq<Seq<char>>, r: QueryStep) -> bool {
    if w.len() < 3 {
        is_error(r, "Usage: GET chat:id <id>"@)
    } else {
        match parsed_i64(w[2]) {
            Some(id) => r == QueryStep::Fetch(DbRequest::ChatNameById { chat_id: id }),
            None => is_error(r, "Invalid chat ID"@),
        }
    }
}

/// The step for `GET chat:name <name>` (`echo` true) and
/// `GET chat:id-for-name <name>` (`echo` false).
pub open spec fn get_chat_by_name_plan(w: Seq<Seq<char>>, r: QueryStep, echo: bool) -> bool {
    if w.len() < 3 {
        is_error(
            r,
            if echo {
                "Usage: GET chat:name <name>"@
            } else {
                "Usage: GET chat:id-for-name <name>"@
            },
        )
    } else if name_arg(w, 2).len() == 0 {
        is_error(r, "Chat name cannot be empty"@)
    } else {
        r matches QueryStep::Fetch(DbRequest::ChatIdByName { chat_name, echo_name })
            && chat_name@ == name_arg(w, 2) && echo_name == echo
    }
}

/// The step for `GET channel-mints chatid|chatname <value>`.
pub open spec fn get_channel_mints_plan(w: Seq<Seq<char>>, r: QueryStep) -> bool {
    if w.len() < 4 {
        is_error(r, "Usage: GET channel-mints chatid|chatname <value>"@)
    } else if w[2] == "chatid"@ {
        match parsed_i64(w[3]) {
            Some(id) => r == QueryStep::Fetch(DbRequest::MintsForChatId { chat_id: id }),
            None => is_error(r, "Invalid chat ID"@),
        }
    } else if w[2] == "chatname"@ {
        if name_arg(w, 3).len() == 0 {
            is_error(r, "Chat name cannot be empty"@)
        } else {
            r matches QueryStep::Fetch(DbRequest::MintsForChatName { chat_name })
                && chat_name@ == name_arg(w, 3)
        }
    } else {
        is_error(r, "Invalid mode for channel-mints. Use chatid or chatname"@)
    }
}

/// The step for `GET contexts-by-channel <substring>`.
pub open spec fn get_contexts_plan(w: Seq<Seq<char>>, r: QueryStep) -> bool {
    if w.len() < 3 {
        is_error(r, "Usage: GET contexts-by-channel <channel_name_substring>"@)
    } else if name_arg(w, 2).len() == 0 {
        is_error(r, "Channel name substring cannot be empty"@)
    } else {
        r matches QueryStep::Fetch(DbRequest::ChannelsBySubstring { substring })
            && substring@ == name_arg(w, 2)
    }
}

/// The step for a `GET` query.
pub open spec fn get_plan(w: Seq<Seq<char>>, r: QueryStep) -> bool {
    if w.len() < 2 {
        is_error(r, "Invalid GET command. Usage: GET <type> [value]"@)
    } else if w[1] == GET_MINT@ {
        get_mint_plan(w, r)
    } else if w[1] == GET_CHAT_ID@ {
        get_chat_id_plan(w, r)
    } else if w[1] == GET_CHAT_NAME@ {
        get_chat_by_name_plan(w, r, true)
    } else if w[1] == GET_CHAT_ID_FOR_NAME@ {
        get_chat_by_name_plan(w, r, false)
    } else if w[1] == GET_STATS@ {
        r == QueryStep::Fetch(DbRequest::Stats)
    } else if w[1] == GET_CHANNELS_WITH_MINTS@ {
        r == QueryStep::Fetch(DbRequest::ChatsWithAnyMint)
    } else if w[1] == GET_CHANNEL_MINTS@ {
        get_channel_mints_plan(w, r)
    } else if w[1] == GET_CONTEXTS_BY_CHANNEL@ {
        get_contexts_plan(w, r)
    } else {
        is_error(r, "Unknown GET type: "@ + w[1])
    }
}

/// The step for a `CLEANUP` query.
pub open spec fn cleanup_plan(w: Seq<Seq<char>>, r: QueryStep) -> bool {
    if w.len() < 2 {
        is_error(r, "Usage: CLEANUP <max_age_seconds>"@)
    } else {
        match parsed_u64(w[1]) {
            Some(age) => r == QueryStep::Fetch(DbRequest::Cleanup { max_age_seconds: age }),
            None => is_error(r, "Invalid max_age_seconds"@),
        }
    }
}

/// The first step for a query made of the words `w`.
pub open spec fn query_plan(w: Seq<Seq<char>>, r: QueryStep) -> bool {
    if w.len() == 0 {
        r matches QueryStep::Reply(QueryReply::ErrorWithCommands(m)) && m@ == "Empty query"@
    } else if w[0] == CMD_GET@ {
        get_plan(w, r)
    } else if w[0] == CMD_CLEANUP@ {
        cleanup_plan(w, r)
    } else if w[0] == CMD_HELP@ {
        r == QueryStep::Reply(QueryReply::Help)
    } else {
        is_error(r, "Unknown command: "@ + w[0])
    }
}

fn error_reply(message: &str) -> (r: QueryStep)
    ensures
        is_error(r, message@),
{
    QueryStep::Reply(QueryReply::Error(message.to_owned()))
}

fn error_reply_with(message: &str, detail: &str) -> (r: QueryStep)
    ensures
        is_error(r, message@ + detail@),
{
    let mut m = message.to_owned();
    m.append(detail);
    QueryStep::Reply(QueryReply::Error(m))
}

fn contains_word(parts: &[&str], x: &str) -> (r: bool)
    ensures
        r == views(parts@).contains(x@),
{
    let mut i: usize = 0;
    while i < parts.len()
        invariant
            i <= parts@.len(),
            forall|j: int| 0 <= j < i ==> parts@[j]@ != x@,
        decreases parts@.len() - i,
    {
        if str_eq(parts[i], x) {
            assert(views(parts@)[i as int] == x@);
            return true;
        }
        i = i + 1;
    }
    proof {
        if views(parts@).contains(x@) {
            let j = choose|j: int| 0 <= j < views(parts@).len() && views(parts@)[j] == x@;
            assert(parts@[j]@ == x@);
        }
    }
    false
}

fn name_argument(parts: &[&str], start: usize) -> (r: String)
    requires
        start <= parts@.len(),
    ensures
        r@ == name_arg(views(parts@), start as int),
{
    let raw = join_tail(parts, start);
    assert(parts@.subrange(start as int, parts@.len() as int).map_values(|p: &str| p@)
        =~= views(parts@).subrange(start as int, parts@.len() as int));
    normalize_quoted(raw.as_str())
}

fn handle_get_mint(parts: &[&str]) -> (r: QueryStep)
    requires
        parts@.len() >= 2,
    ensures
        get_mint_plan(views(parts@), r),
{
    if parts.len() < 3 {
        return error_reply("Usage: GET mint <address> [--no-cache|--unique-chats]");
    }
    let mint = parts[2];
    let use_cache = !contains_word(parts, "--no-cache");
    let unique_chats = contains_word(parts, "--unique-chats");
    if unique_chats {
        return QueryStep::Fetch(DbRequest::UniqueChatsForMint { mint: mint.to_owned() });
    }
    QueryStep::Fetch(DbRequest::MessagesByMint { mint: mint.to_owned(), use_cache })
}

fn handle_get_chat_id(parts: &[&str]) -> (r: QueryStep)
    ensures
        get_chat_id_plan(views(parts@), r),
{
    if parts.len() < 3 {
        return error_reply("Usage: GET chat:id <id>");
    }
    match parse_i64(parts[2]) {
        Some(chat_id) => QueryStep::Fetch(DbRequest::ChatNameById { chat_id }),
        None => error_reply("Invalid chat ID"),
    }
}

fn handle_get_chat_by_name(parts: &[&str], echo_name: bool) -> (r: QueryStep)
    ensures
        get_chat_by_name_plan(views(parts@), r, echo_name),
{
    if parts.len() < 3 {
        if echo_name {
            return error_reply("Usage: GET chat:name <name>");
        } else {
            return error_reply("Usage: GET chat:id-for-name <name>");
        }
    }
    let chat_name = name_argument(parts, 2);
    if chat_name.as_str().is_empty() {
        return error_reply("Chat name cannot be empty");
    }
    QueryStep::Fetch(DbRequest::ChatIdByName { chat_name, echo_name })
}

fn handle_get_channel_mints(parts: &[&str]) -> (r: QueryStep)
    ensures
        get_channel_mints_plan(views(parts@), r),
{
    if parts.len() < 4 {
        return error_reply("Usage: GET channel-mints chatid|chatname <value>");
    }
    if str_eq(parts[2], "chatid") {
        match parse_i64(parts[3]) {
            Some(chat_id) => QueryStep::Fetch(DbRequest::MintsForChatId { chat_id }),
            None => error_reply("Invalid chat ID"),
        }
    } else if str_eq(parts[2], "chatname") {
        let chat_name = name_argument(parts, 3);
        if chat_name.as_str().is_empty() {
            return error_reply("Chat name cannot be empty");
        }
        QueryStep::Fetch(DbRequest::MintsForChatName { chat_name })
    } else {
        error_reply("Invalid mode for channel-mints. Use chatid or chatname")
    }
}

fn handle_get_contexts_by_channel(parts: &[&str]) -> (r: QueryStep)
    ensures
        get_contexts_plan(views(parts@), r),
{
    if parts.len() < 3 {
        return error_reply("Usage: GET contexts-by-channel <channel_name_substring>");
    }
    let substring = name_argument(parts, 2);
    if substring.as_str().is_empty() {
        return error_reply("Channel name substring cannot be empty");
    }
    QueryStep::Fetch(DbRequest::ChannelsBySubstring { substring })
}

fn handle_get(parts: &[&str]) -> (r: QueryStep)
    ensures
        get_plan(views(parts@), r),
{
    if parts.len() < 2 {
        return error_reply("Invalid GET command. Usage: GET <type> [value]");
    }
    let kind = parts[1];
    if str_eq(kind, GET_MINT) {
        handle_get_mint(parts)
    } else if str_eq(kind, GET_CHAT_ID) {
        handle_get_chat_id(parts)
    } else if str_eq(kind, GET_CHAT_NAME) {
        handle_get_chat_by_name(parts, true)
    } else if str_eq(kind, GET_CHAT_ID_FOR_NAME) {
        handle_get_chat_by_name(parts, false)
    } else if str_eq(kind, GET_STATS) {
        QueryStep::Fetch(DbRequest::Stats)
    } else if str_eq(kind, GET_CHANNELS_WITH_MINTS) {
        QueryStep::Fetch(DbRequest::ChatsWithAnyMint)
    } else if str_eq(kind, GET_CHANNEL_MINTS) {
        handle_get_channel_mints(parts)
    } else if str_eq(kind, GET_CONTEXTS_BY_CHANNEL) {
        handle_get_contexts_by_channel(parts)
    } else {
        error_reply_with("Unknown GET type: ", kind)
    }
}

fn handle_cleanup(parts: &[&str]) -> (r: QueryStep)
    ensures
        cleanup_plan(views(parts@), r),
{
    if parts.len() < 2 {
        return error_reply("Usage: CLEANUP <max_age_seconds>");
    }
    match parse_u64(parts[1]) {
        Some(max_age_seconds) => QueryStep::Fetch(DbRequest::Cleanup { max_age_seconds }),
        None => error_reply("Invalid max_age_seconds"),
    }
}

/// Reads a query line and decides its first step.
pub fn process_query(query_str: &str) -> (r: QueryStep)
    ensures
        query_plan(words(query_str@), r),
{
    let parts = split_parts(query_str);
    let ghost w = words(query_str@);
    assert(views(parts@) == w);
    if parts.len() == 0 {
        return QueryStep::Reply(QueryReply::ErrorWithCommands("Empty query".to_owned()));
    }
    let command = parts[0];
    if str_eq(command, CMD_GET) {
        handle_get(parts.as_slice())
    } else if str_eq(command, CMD_CLEANUP) {
        handle_cleanup(parts.as_slice())
    } else if str_eq(command, CMD_HELP) {
        QueryStep::Reply(QueryReply::Help)
    } else {
        error_reply_with("Unknown command: ", command)
    }
}


/// `answer` is of the kind that `request` asks for.
pub open spec fn answers(request: DbRequest, answer: DbAnswer) -> bool {
    match request {
        DbRequest::MessagesByMint { .. } => answer is Messages,
        DbRequest::UniqueChatsForMint { .. } => answer is Chats,
        DbRequest::ChatNameById { .. } => answer is ChatName,
        DbRequest::ChatIdByName { .. } => answer is ChatId,
        DbRequest::Stats => answer is Stats,
        DbRequest::ChatsWithAnyMint => answer is Chats,
        DbRequest::MintsForChatId { .. } => answer is Names,
        DbRequest::MintsForChatName { .. } => answer is Names,
        DbRequest::ChannelsBySubstring { .. } => answer is Chats,
        DbRequest::ContextsBySubstring { .. } => answer is Names,
        DbRequest::Cleanup { .. } => answer is Deleted,
    }
}

/// Whether `answer` is of the kind that `request` asks for, as
/// [`resume_query`] requires.
pub fn answer_fits(request: &DbRequest, answer: &DbAnswer) -> (r: bool)
    ensures
        r == answers(*request, *answer),
{
    match request {
        DbRequest::MessagesByMint { .. } => matches!(answer, DbAnswer::Messages(_)),
        DbRequest::UniqueChatsForMint { .. } => matches!(answer, DbAnswer::Chats(_)),
        DbRequest::ChatNameById { .. } => matches!(answer, DbAnswer::ChatName(_)),
        DbRequest::ChatIdByName { .. } => matches!(answer, DbAnswer::ChatId(_)),
        DbRequest::Stats => matches!(answer, DbAnswer::Stats(_)),
        DbRequest::ChatsWithAnyMint => matches!(answer, DbAnswer::Chats(_)),
        DbRequest::MintsForChatId { .. } => matches!(answer, DbAnswer::Names(_)),
        DbRequest::MintsForChatName { .. } => matches!(answer, DbAnswer::Names(_)),
        DbRequest::ChannelsBySubstring { .. } => matches!(answer, DbAnswer::Chats(_)),
        DbRequest::ContextsBySubstring { .. } => matches!(answer, DbAnswer::Names(_)),
        DbRequest::Cleanup { .. } => matches!(answer, DbAnswer::Deleted(_)),
    }
}

/// The step that follows `request` once the store answered `answer`.
pub open spec fn resume_plan(request: DbRequest, answer: DbAnswer, r: QueryStep) -> bool {
    match (request, answer) {
        (DbRequest::MessagesByMint { mint, use_cache }, DbAnswer::Messages(res)) => match res {
            Ok(messages) => r == QueryStep::Reply(
                QueryReply::MintMessages { mint, messages, cached: use_cache },
            ),
            Err(e) => is_error(r, "Failed to query messages: "@ + e@),
        },
        (DbRequest::UniqueChatsForMint { mint }, DbAnswer::Chats(res)) => match res {
            Ok(chats) => r == QueryStep::Reply(QueryReply::MintChats { mint, chats }),
            Err(e) => is_error(r, "Failed to query chats: "@ + e@),
        },
        (DbRequest::ChatNameById { chat_id }, DbAnswer::ChatName(res)) => match res {
            Some(chat_name) => r == QueryStep::Reply(QueryReply::ChatFound { chat_id, chat_name }),
            None => is_error(r, "Chat not found"@),
        },
        (DbRequest::ChatIdByName { chat_name, echo_name }, DbAnswer::ChatId(res)) => match res {
            Some(chat_id) => r == QueryStep::Reply(
                if echo_name {
                    QueryReply::ChatFound { chat_id, chat_name }
                } else {
                    QueryReply::ChatIdOnly { chat_id }
                },
            ),
            None => is_error(r, "Chat not found"@),
        },
        (DbRequest::Stats, DbAnswer::Stats(res)) => match res {
            Ok(stats) => r == QueryStep::Reply(QueryReply::Stats(stats)),
            Err(e) => is_error(r, "Failed to get stats: "@ + e@),
        },
        (DbRequest::ChatsWithAnyMint, DbAnswer::Chats(res)) => match res {
            Ok(channels) => r == QueryStep::Reply(QueryReply::Channels { channels }),
            Err(e) => is_error(r, "Failed to query channels with mints: "@ + e@),
        },
        (DbRequest::MintsForChatId { chat_id }, DbAnswer::Names(res)) => match res {
            Ok(mints) => r == QueryStep::Reply(QueryReply::ChannelMintsById { chat_id, mints }),
            Err(e) => is_error(r, "Failed to query mints for chat: "@ + e@),
        },
        (DbRequest::MintsForChatName { chat_name }, DbAnswer::Names(res)) => match res {
            Ok(mints) => r == QueryStep::Reply(QueryReply::ChannelMintsByName { chat_name, mints }),
            Err(e) => is_error(r, "Failed to query mints for chat: "@ + e@),
        },
        (DbRequest::ChannelsBySubstring { substring }, DbAnswer::Chats(res)) => match res {
            Ok(channels) => r == QueryStep::Fetch(
                DbRequest::ContextsBySubstring { substring, channels },
            ),
            Err(e) => is_error(r, "Failed to query matched channels: "@ + e@),
        },
        (DbRequest::ContextsBySubstring { substring, channels }, DbAnswer::Names(res)) => match res {
            Ok(contexts) => r == QueryStep::Reply(
                QueryReply::Contexts { query: substring, matched_channels: channels, contexts },
            ),
            Err(e) => is_error(r, "Failed to query contexts by channel substring: "@ + e@),
        },
        (DbRequest::Cleanup { max_age_seconds }, DbAnswer::Deleted(res)) => match res {
            Ok(deleted_messages) => r == QueryStep::Reply(
                QueryReply::Cleanup { deleted_messages, max_age_seconds },
            ),
            Err(e) => is_error(r, "Cleanup failed: "@ + e@),
        },
        _ => false,
    }
}

/// Composes the step that follows `request` from what the store answered.
pub fn resume_query(request: DbRequest, answer: DbAnswer) -> (r: QueryStep)
    requires
        answers(request, answer),
    ensures
        resume_plan(request, answer, r),
{
    match (request, answer) {
        (DbRequest::MessagesByMint { mint, use_cache }, DbAnswer::Messages(res)) => match res {
            Ok(messages) => QueryStep::Reply(
                QueryReply::MintMessages { mint, messages, cached: use_cache },
            ),
            Err(e) => error_reply_with("Failed to query messages: ", e.as_str()),
        },
        (DbRequest::UniqueChatsForMint { mint }, DbAnswer::Chats(res)) => match res {
            Ok(chats) => QueryStep::Reply(QueryReply::MintChats { mint, chats }),
            Err(e) => error_reply_with("Failed to query chats: ", e.as_str()),
        },
        (DbRequest::ChatNameById { chat_id }, DbAnswer::ChatName(res)) => match res {
            Some(chat_name) => QueryStep::Reply(QueryReply::ChatFound { chat_id, chat_name }),
            None => error_reply("Chat not found"),
        },
        (DbRequest::ChatIdByName { chat_name, echo_name }, DbAnswer::ChatId(res)) => match res {
            Some(chat_id) => if echo_name {
                QueryStep::Reply(QueryReply::ChatFound { chat_id, chat_name })
            } else {
                QueryStep::Reply(QueryReply::ChatIdOnly { chat_id })
            },
            None => error_reply("Chat not found"),
        },
        (DbRequest::Stats, DbAnswer::Stats(res)) => match res {
            Ok(stats) => QueryStep::Reply(QueryReply::Stats(stats)),
            Err(e) => error_reply_with("Failed to get stats: ", e.as_str()),
        },
        (DbRequest::ChatsWithAnyMint, DbAnswer::Chats(res)) => match res {
            Ok(channels) => QueryStep::Reply(QueryReply::Channels { channels }),
            Err(e) => error_reply_with("Failed to query channels with mints: ", e.as_str()),
        },
        (DbRequest::MintsForChatId { chat_id }, DbAnswer::Names(res)) => match res {
            Ok(mints) => QueryStep::Reply(QueryReply::ChannelMintsById { chat_id, mints }),
            Err(e) => error_reply_with("Failed to query mints for chat: ", e.as_str()),
        },
        (DbRequest::MintsForChatName { chat_name }, DbAnswer::Names(res)) => match res {
            Ok(mints) => QueryStep::Reply(QueryReply::ChannelMintsByName { chat_name, mints }),
            Err(e) => error_reply_with("Failed to query mints for chat: ", e.as_str()),
        },
        (DbRequest::ChannelsBySubstring { substring }, DbAnswer::Chats(res)) => match res {
            Ok(channels) => QueryStep::Fetch(DbRequest::ContextsBySubstring { substring, channels }),
            Err(e) => error_reply_with("Failed to query matched channels: ", e.as_str()),
        },
        (DbRequest::ContextsBySubstring { substring, channels }, DbAnswer::Names(res)) => match res {
            Ok(contexts) => QueryStep::Reply(
                QueryReply::Contexts { query: substring, matched_channels: channels, contexts },
            ),
            Err(e) => error_reply_with(
                "Failed to query contexts by channel substring: ",
                e.as_str(),
            ),
        },
        (DbRequest::Cleanup { max_age_seconds }, DbAnswer::Deleted(res)) => match res {
            Ok(deleted_messages) => QueryStep::Reply(
                QueryReply::Cleanup { deleted_messages, max_age_seconds },
            ),
            Err(e) => error_reply_with("Cleanup failed: ", e.as_str()),
        },
        _ => {
            assert(false);
            error_reply("")
        },
    }
}

/// `a` and `b` ask the message store for the same thing.
pub open spec fn same_request(a: DbRequest, b: DbRequest) -> bool {
    match a {
        DbRequest::MessagesByMint { mint, use_cache } => b matches DbRequest::MessagesByMint { mint: m2, use_cache: u2 }
            && mint@ == m2@ && use_cache == u2,
        DbRequest::UniqueChatsForMint { mint } => b matches DbRequest::UniqueChatsForMint { mint: m2 } && mint@ == m2@,
        DbRequest::ChatNameById { chat_id } => b matches DbRequest::ChatNameById { chat_id: c2 } && chat_id == c2,
        DbRequest::ChatIdByName { chat_name, echo_name } => b matches DbRequest::ChatIdByName { chat_name: n2, echo_name: e2 }
            && chat_name@ == n2@ && echo_name == e2,
        DbRequest::Stats => b is Stats,
        DbRequest::ChatsWithAnyMint => b is ChatsWithAnyMint,
        DbRequest::MintsForChatId { chat_id } => b matches DbRequest::MintsForChatId { chat_id: c2 } && chat_id == c2,
        DbRequest::MintsForChatName { chat_name } => b matches DbRequest::MintsForChatName { chat_name: n2 }
            && chat_name@ == n2@,
        DbRequest::ChannelsBySubstring { substring } => b matches DbRequest::ChannelsBySubstring { substring: s2 }
            && substring@ == s2@,
        DbRequest::ContextsBySubstring { substring, channels } => b matches DbRequest::ContextsBySubstring {
            substring: s2,
            channels: c2,
        } && substring@ == s2@ && channels@ == c2@,
        DbRequest::Cleanup { max_age_seconds } => b matches DbRequest::Cleanup { max_age_seconds: a2 }
            && max_age_seconds == a2,
    }
}

/// `a` and `b` are the same first step of a query: the same error message,
/// the command list, or the same store request.
pub open spec fn same_first_step(a: QueryStep, b: QueryStep) -> bool {
    ||| a matches QueryStep::Reply(QueryReply::Error(x)) && b matches QueryStep::Reply(QueryReply::Error(y))
        && x@ == y@
    ||| a matches QueryStep::Reply(QueryReply::ErrorWithCommands(x))
        && b matches QueryStep::Reply(QueryReply::ErrorWithCommands(y)) && x@ == y@
    ||| a matches QueryStep::Reply(QueryReply::Help) && b matches QueryStep::Reply(QueryReply::Help)
    ||| a matches QueryStep::Fetch(x) && b matches QueryStep::Fetch(y) && same_request(x, y)
}

/// Law: the first step of a query depends only on its words. Two queries
/// that differ only in white space ([`process_query`] steps `r1` and `r2`)
/// give the same error or command list, or ask the store for the same
/// thing; what follows depends only on that request and the store's answer
/// ([`resume_query`]).
pub proof fn law_same_words_same_step(q1: Seq<char>, q2: Seq<char>, r1: QueryStep, r2: QueryStep)
    requires
        words(q1) == words(q2),
        query_plan(words(q1), r1),
        query_plan(words(q2), r2),
    ensures
        same_first_step(r1, r2),
{
}

/// Law: a query that names a chat or a channel (`GET contexts-by-channel`,
/// `GET chat:name`, `GET chat:id-for-name`, `GET channel-mints chatname`)
/// asks the store with every word after the type (after the mode for
/// `channel-mints`), joined by single spaces and stripped of white space
/// and outer quotes, whenever that is not empty.
pub proof fn law_name_queries_use_every_word(q: Seq<char>, r: QueryStep)
    requires
        query_plan(words(q), r),
    ensures
        (words(q).len() >= 3 && words(q)[0] == "GET"@ && words(q)[1] == "contexts-by-channel"@
            && normalized(join_words(words(q).subrange(2, words(q).len() as int))).len() > 0)
            ==> (r matches QueryStep::Fetch(DbRequest::ChannelsBySubstring { substring })
            && substring@ == normalized(join_words(words(q).subrange(2, words(q).len() as int)))),
        (words(q).len() >= 3 && words(q)[0] == "GET"@ && words(q)[1] == "chat:name"@
            && normalized(join_words(words(q).subrange(2, words(q).len() as int))).len() > 0)
            ==> (r matches QueryStep::Fetch(DbRequest::ChatIdByName { chat_name, echo_name })
            && chat_name@ == normalized(join_words(words(q).subrange(2, words(q).len() as int))) && echo_name),
        (words(q).len() >= 3 && words(q)[0] == "GET"@ && words(q)[1] == "chat:id-for-name"@
            && normalized(join_words(words(q).subrange(2, words(q).len() as int))).len() > 0)
            ==> (r matches QueryStep::Fetch(DbRequest::ChatIdByName { chat_name, echo_name })
            && chat_name@ == normalized(join_words(words(q).subrange(2, words(q).len() as int))) && !echo_name),
        (words(q).len() >= 4 && words(q)[0] == "GET"@ && words(q)[1] == "channel-mints"@ && words(q)[2] == "chatname"@
            && normalized(join_words(words(q).subrange(3, words(q).len() as int))).len() > 0)
            ==> (r matches QueryStep::Fetch(DbRequest::MintsForChatName { chat_name })
            && chat_name@ == normalized(join_words(words(q).subrange(3, words(q).len() as int)))),
{
    reveal_strlit("GET");
    reveal_strlit("HELP");
    reveal_strlit("CLEANUP");
    reveal_strlit("mint");
    reveal_strlit("chat:id");
    reveal_strlit("chat:name");
    reveal_strlit("chat:id-for-name");
    reveal_strlit("stats");
    reveal_strlit("channels-with-mints");
    reveal_strlit("channel-mints");
    reveal_strlit("contexts-by-channel");
    reveal_strlit("chatid");
    reveal_strlit("chatname");
    assert(CMD_GET@ == "GET"@ && CMD_HELP@ == "HELP"@ && CMD_CLEANUP@ == "CLEANUP"@);
    assert(GET_MINT@ == "mint"@ && GET_CHAT_ID@ == "chat:id"@ && GET_CHAT_NAME@ == "chat:name"@);
    assert(GET_CHAT_ID_FOR_NAME@ == "chat:id-for-name"@ && GET_STATS@ == "stats"@);
    assert(GET_CHANNELS_WITH_MINTS@ == "channels-with-mints"@ && GET_CHANNEL_MINTS@ == "channel-mints"@);
    assert(GET_CONTEXTS_BY_CHANNEL@ == "contexts-by-channel"@);
    assert("GET"@.len() == 3 && "HELP"@.len() == 4 && "CLEANUP"@.len() == 7);
    assert("mint"@.len() == 4 && "chat:id"@.len() == 7 && "chat:name"@.len() == 9);
    assert("chat:id-for-name"@.len() == 16 && "stats"@.len() == 5 && "channel-mints"@.len() == 13);
    assert("channels-with-mints"@.len() == 19 && "contexts-by-channel"@.len() == 19);
    assert("channels-with-mints"@[1] != "contexts-by-channel"@[1]);
    assert("chatid"@.len() == 6 && "chatname"@.len() == 8);
}

/// Law: the channel substring of `GET contexts-by-channel` holds every word
/// after the type: joined by single spaces when none is quoted, so that it
/// splits back into exactly those words.
pub proof fn law_contexts_substring_keeps_words(q: Seq<char>, r: QueryStep)
    requires
        query_plan(words(q), r),
        words(q).len() >= 3,
        words(q)[0] == "GET"@,
        words(q)[1] == "contexts-by-channel"@,
        words(q)[2][0] != '"',
        words(q).last().last() != '"',
    ensures
        r matches QueryStep::Fetch(DbRequest::ChannelsBySubstring { substring })
            && substring@ == join_words(words(q).subrange(2, words(q).len() as int))
            && words(substring@) == words(q).subrange(2, words(q).len() as int),
{
    let w = words(q);
    let tail = w.subrange(2, w.len() as int);
    law_words_are_words(q);
    assert forall|i: int| 0 <= i < tail.len() implies is_word(#[trigger] tail[i]) by {
        assert(tail[i] == w[i + 2]);
    }
    assert(tail[0] == w[2]);
    assert(tail.last() == w.last());
    law_name_argument_keeps_words(tail);
    law_name_queries_use_every_word(q, r);
}

/// Law: a reply carries what the store answered, unchanged: an answer to a
/// request that succeeded (or found what it looked for) is passed on whole,
/// in its order, together with what the request asked about.
pub proof fn law_reply_carries_the_answer(request: DbRequest, answer: DbAnswer, r: QueryStep)
    requires
        resume_plan(request, answer, r),
    ensures
        match (request, answer) {
            (DbRequest::MessagesByMint { mint, use_cache }, DbAnswer::Messages(Ok(msgs))) =>
                r matches QueryStep::Reply(QueryReply::MintMessages { mint: m2, messages, cached })
                && m2@ == mint@ && messages@ == msgs@ && cached == use_cache,
            (DbRequest::UniqueChatsForMint { mint }, DbAnswer::Chats(Ok(cs))) =>
                r matches QueryStep::Reply(QueryReply::MintChats { mint: m2, chats }) && m2@ == mint@
                && chats@ == cs@,
            (DbRequest::ChatNameById { chat_id }, DbAnswer::ChatName(Some(name))) =>
                r matches QueryStep::Reply(QueryReply::ChatFound { chat_id: id2, chat_name })
                && id2 == chat_id && chat_name@ == name@,
            (DbRequest::ChatIdByName { chat_name, echo_name }, DbAnswer::ChatId(Some(id))) => if echo_name {
                r matches QueryStep::Reply(QueryReply::ChatFound { chat_id: id2, chat_name: n2 }) && id2 == id
                    && n2@ == chat_name@
            } else {
                r matches QueryStep::Reply(QueryReply::ChatIdOnly { chat_id: id2 }) && id2 == id
            },
            (DbRequest::Stats, DbAnswer::Stats(Ok(st))) =>
                r matches QueryStep::Reply(QueryReply::Stats(st2)) && st2 == st,
            (DbRequest::ChatsWithAnyMint, DbAnswer::Chats(Ok(cs))) =>
                r matches QueryStep::Reply(QueryReply::Channels { channels }) && channels@ == cs@,
            (DbRequest::MintsForChatId { chat_id }, DbAnswer::Names(Ok(ms))) =>
                r matches QueryStep::Reply(QueryReply::ChannelMintsById { chat_id: id2, mints })
                && id2 == chat_id && mints@ == ms@,
            (DbRequest::MintsForChatName { chat_name }, DbAnswer::Names(Ok(ms))) =>
                r matches QueryStep::Reply(QueryReply::ChannelMintsByName { chat_name: n2, mints })
                && n2@ == chat_name@ && mints@ == ms@,
            (DbRequest::ChannelsBySubstring { substring }, DbAnswer::Chats(Ok(cs))) =>
                r matches QueryStep::Fetch(DbRequest::ContextsBySubstring { substring: s2, channels })
                && s2@ == substring@ && channels@ == cs@,
            (DbRequest::ContextsBySubstring { substring, channels }, DbAnswer::Names(Ok(cs))) =>
                r matches QueryStep::Reply(QueryReply::Contexts { query, matched_channels, contexts })
                && query@ == substring@ && matched_channels@ == channels@ && contexts@ == cs@,
            (DbRequest::Cleanup { max_age_seconds }, DbAnswer::Deleted(Ok(n))) =>
                r matches QueryStep::Reply(QueryReply::Cleanup { deleted_messages, max_age_seconds: a2 })
                && deleted_messages == n && a2 == max_age_seconds,
            _ => true,
        },
{
}

} // verus!
