//! The words of the query protocol and its help text.

use vstd::prelude::*;

verus! {

pub const CMD_GET: &'static str = "GET";
pub const CMD_HELP: &'static str = "HELP";
pub const CMD_CLEANUP: &'static str = "CLEANUP";

pub const GET_MINT: &'static str = "mint";
pub const GET_CHAT_ID: &'static str = "chat:id";
pub const GET_CHAT_NAME: &'static str = "chat:name";
pub const GET_CHAT_ID_FOR_NAME: &'static str = "chat:id-for-name";
pub const GET_STATS: &'static str = "stats";
pub const GET_CHANNELS_WITH_MINTS: &'static str = "channels-with-mints";
pub const GET_CHANNEL_MINTS: &'static str = "channel-mints";
pub const GET_CONTEXTS_BY_CHANNEL: &'static str = "contexts-by-channel";

/// The help lines, one per command form, in the order they are listed.
pub open spec fn help_lines() -> Seq<Seq<char>> {
    seq![
        "GET mint <address> [--no-cache] - Get all messages for a mint address"@,
        "GET mint <address> --unique-chats - Get unique chats where mint was mentioned"@,
        "GET chat:id <id> - Get chat name by ID"@,
        "GET chat:name <name> - Get chat ID by name"@,
        "GET chat:id-for-name <name> - Get chat ID only"@,
        "GET channels-with-mints - Get all channels that have at least one stored context"@,
        "GET channel-mints chatid <id> - Get all contexts for a channel by ID"@,
        "GET channel-mints chatname <name> - Get all contexts for a channel by exact name"@,
        "GET contexts-by-channel <substring> - Get contexts where matched channel names contain substring (case-insensitive)"@,
        "GET stats - Get database statistics"@,
        "CLEANUP <max_age_seconds> - Delete messages older than specified seconds"@,
        "HELP - Show this help"@,
    ]
}

/// The help text of the protocol, one line per command form.
pub fn help_commands() -> (r: Vec<&'static str>)
    ensures
        r@.map_values(|s: &str| s@) == help_lines(),
{
    let mut r: Vec<&'static str> = Vec::new();
    r.push("GET mint <address> [--no-cache] - Get all messages for a mint address");
    r.push("GET mint <address> --unique-chats - Get unique chats where mint was mentioned");
    r.push("GET chat:id <id> - Get chat name by ID");
    r.push("GET chat:name <name> - Get chat ID by name");
    r.push("GET chat:id-for-name <name> - Get chat ID only");
    r.push("GET channels-with-mints - Get all channels that have at least one stored context");
    r.push("GET channel-mints chatid <id> - Get all contexts for a channel by ID");
    r.push("GET channel-mints chatname <name> - Get all contexts for a channel by exact name");
    r.push(
        "GET contexts-by-channel <substring> - Get contexts where matched channel names contain substring (case-insensitive)",
    );
    r.push("GET stats - Get database statistics");
    r.push("CLEANUP <max_age_seconds> - Delete messages older than specified seconds");
    r.push("HELP - Show this help");
    assert(r@.map_values(|s: &str| s@) =~= help_lines());
    r
}

} // verus!
