use tcp_router::database::models::{QueryResult, StoreStats};
use tcp_router::query_server::handlers::{answer_fits, process_query, resume_query, DbAnswer, DbRequest, QueryReply, QueryStep};
use tcp_router::query_server::parsing::{join_tail, normalize_quoted, split_parts};
use tcp_router::query_server::protocol::help_commands;

fn error_of(step: QueryStep) -> String {
    match step {
        QueryStep::Reply(QueryReply::Error(m)) => m,
        other => panic!("expected an error, got {:?}", other),
    }
}

fn request_of(step: QueryStep) -> DbRequest {
    match step {
        QueryStep::Fetch(r) => r,
        other => panic!("expected a request, got {:?}", other),
    }
}

#[test]
fn split_parts_drops_white_space() {
    assert_eq!(split_parts("  GET   mint\tabc \n"), vec!["GET", "mint", "abc"]);
    assert_eq!(split_parts("a\u{3000}b\u{85}c"), vec!["a", "b", "c"]);
    assert!(split_parts("").is_empty());
    assert!(split_parts(" \t \n").is_empty());
    assert_eq!(split_parts("one"), vec!["one"]);
}

#[test]
fn words_are_never_empty() {
    for w in split_parts(" x  y\t\tz ") {
        assert!(!w.is_empty());
        assert!(!w.chars().any(|c| c.is_whitespace()));
    }
}

#[test]
fn answers_fit_their_requests() {
    let r = DbRequest::ChatNameById { chat_id: 1 };
    assert!(answer_fits(&r, &DbAnswer::ChatName(None)));
    assert!(!answer_fits(&r, &DbAnswer::ChatId(None)));
    assert!(answer_fits(&DbRequest::Stats, &DbAnswer::Stats(Err("x".to_string()))));
    assert!(!answer_fits(&DbRequest::Cleanup { max_age_seconds: 1 }, &DbAnswer::Names(Ok(vec![]))));
}

#[test]
fn same_words_give_the_same_step() {
    let pairs = [
        ("GET mint ABC --no-cache", "  GET\tmint   ABC --no-cache \n"),
        ("GET chat:name My Chat", "GET chat:name   My\u{3000}Chat"),
        ("CLEANUP 60", " CLEANUP\t60"),
        ("BOGUS x", "BOGUS   x  "),
        ("", " \t "),
    ];
    for (a, b) in pairs {
        assert_eq!(format!("{:?}", process_query(a)), format!("{:?}", process_query(b)));
    }
}

#[test]
fn split_after_join_gives_the_words_back() {
    let parts = vec!["GET_CHAT_ID", "My", "Group\u{2014}Chat", "x"];
    let joined = join_tail(&parts, 0);
    assert_eq!(joined, "GET_CHAT_ID My Group\u{2014}Chat x");
    assert_eq!(split_parts(&joined), parts);
    let tail = join_tail(&parts, 1);
    assert_eq!(split_parts(&tail), vec!["My", "Group\u{2014}Chat", "x"]);
}

#[test]
fn join_tail_joins_from_start() {
    let parts = ["GET", "chat:name", "My", "Chat"];
    assert_eq!(join_tail(&parts, 2), "My Chat");
    assert_eq!(join_tail(&parts, 3), "Chat");
    assert_eq!(join_tail(&parts, 4), "");
    assert_eq!(join_tail(&parts, 9), "");
    assert_eq!(join_tail(&parts, 0), "GET chat:name My Chat");
}

#[test]
fn normalize_quoted_strips_space_then_quotes() {
    assert_eq!(normalize_quoted("  \"My Chat\"  "), "My Chat");
    assert_eq!(normalize_quoted("\"\"\""), "");
    assert_eq!(normalize_quoted("\" a \""), " a ");
    assert_eq!(normalize_quoted("plain"), "plain");
    assert_eq!(normalize_quoted("\"\"quoted\"\""), "quoted");
    assert_eq!(normalize_quoted("   "), "");
}

#[test]
fn normalized_names_have_no_outer_quotes() {
    for v in ["\"a\"", "\"\"b", "c\"\"", "  \"d e\"  "] {
        let n = normalize_quoted(v);
        assert!(!n.starts_with('"') && !n.ends_with('"'));
    }
}

#[test]
fn help_lists_every_command() {
    let h = help_commands();
    assert_eq!(h.len(), 12);
    assert_eq!(h[0], "GET mint <address> [--no-cache] - Get all messages for a mint address");
    assert_eq!(h[11], "HELP - Show this help");
}

#[test]
fn empty_query_lists_commands() {
    match process_query("   ") {
        QueryStep::Reply(QueryReply::ErrorWithCommands(m)) => assert_eq!(m, "Empty query"),
        other => panic!("{:?}", other),
    }
}

#[test]
fn help_and_unknown_commands() {
    assert!(matches!(process_query("HELP"), QueryStep::Reply(QueryReply::Help)));
    assert_eq!(error_of(process_query("FOO bar")), "Unknown command: FOO");
    assert_eq!(error_of(process_query("help")), "Unknown command: help");
    assert_eq!(error_of(process_query("GET")), "Invalid GET command. Usage: GET <type> [value]");
    assert_eq!(error_of(process_query("GET nothing")), "Unknown GET type: nothing");
}

#[test]
fn get_mint_requests() {
    assert_eq!(error_of(process_query("GET mint")), "Usage: GET mint <address> [--no-cache|--unique-chats]");
    match request_of(process_query("GET mint ABC")) {
        DbRequest::MessagesByMint { mint, use_cache } => {
            assert_eq!(mint, "ABC");
            assert!(use_cache);
        }
        other => panic!("{:?}", other),
    }
    match request_of(process_query("GET mint ABC --no-cache")) {
        DbRequest::MessagesByMint { mint, use_cache } => {
            assert_eq!(mint, "ABC");
            assert!(!use_cache);
        }
        other => panic!("{:?}", other),
    }
    match request_of(process_query("GET mint ABC --no-cache --unique-chats")) {
        DbRequest::UniqueChatsForMint { mint } => assert_eq!(mint, "ABC"),
        other => panic!("{:?}", other),
    }
}

#[test]
fn get_chat_id_parses_the_id() {
    assert_eq!(error_of(process_query("GET chat:id")), "Usage: GET chat:id <id>");
    assert!(matches!(request_of(process_query("GET chat:id -42")), DbRequest::ChatNameById { chat_id: -42 }));
    assert!(matches!(request_of(process_query("GET chat:id +7")), DbRequest::ChatNameById { chat_id: 7 }));
    assert!(matches!(
        request_of(process_query("GET chat:id -9223372036854775808")),
        DbRequest::ChatNameById { chat_id: i64::MIN }
    ));
    assert!(matches!(
        request_of(process_query("GET chat:id 9223372036854775807")),
        DbRequest::ChatNameById { chat_id: i64::MAX }
    ));
    assert_eq!(error_of(process_query("GET chat:id 9223372036854775808")), "Invalid chat ID");
    assert_eq!(error_of(process_query("GET chat:id -")), "Invalid chat ID");
    assert_eq!(error_of(process_query("GET chat:id 12a")), "Invalid chat ID");
    assert_eq!(error_of(process_query("GET chat:id ١٢")), "Invalid chat ID");
}

#[test]
fn get_chat_by_name_joins_and_unquotes() {
    match request_of(process_query("GET chat:name \"My   Chat\"")) {
        DbRequest::ChatIdByName { chat_name, echo_name } => {
            assert_eq!(chat_name, "My Chat");
            assert!(echo_name);
        }
        other => panic!("{:?}", other),
    }
    match request_of(process_query("GET chat:id-for-name Alpha Beta")) {
        DbRequest::ChatIdByName { chat_name, echo_name } => {
            assert_eq!(chat_name, "Alpha Beta");
            assert!(!echo_name);
        }
        other => panic!("{:?}", other),
    }
    assert_eq!(error_of(process_query("GET chat:name \"\"")), "Chat name cannot be empty");
    assert_eq!(error_of(process_query("GET chat:name")), "Usage: GET chat:name <name>");
    assert_eq!(error_of(process_query("GET chat:id-for-name")), "Usage: GET chat:id-for-name <name>");
}

#[test]
fn other_get_requests() {
    assert!(matches!(request_of(process_query("GET stats")), DbRequest::Stats));
    assert!(matches!(request_of(process_query("GET channels-with-mints")), DbRequest::ChatsWithAnyMint));
    assert_eq!(
        error_of(process_query("GET channel-mints chatid")),
        "Usage: GET channel-mints chatid|chatname <value>"
    );
    assert!(matches!(
        request_of(process_query("GET channel-mints chatid -100")),
        DbRequest::MintsForChatId { chat_id: -100 }
    ));
    assert_eq!(error_of(process_query("GET channel-mints chatid x")), "Invalid chat ID");
    match request_of(process_query("GET channel-mints chatname \"Big Room\"")) {
        DbRequest::MintsForChatName { chat_name } => assert_eq!(chat_name, "Big Room"),
        other => panic!("{:?}", other),
    }
    assert_eq!(error_of(process_query("GET channel-mints chatname \"\"")), "Chat name cannot be empty");
    assert_eq!(
        error_of(process_query("GET channel-mints byid 5")),
        "Invalid mode for channel-mints. Use chatid or chatname"
    );
    match request_of(process_query("GET contexts-by-channel alpha")) {
        DbRequest::ChannelsBySubstring { substring } => assert_eq!(substring, "alpha"),
        other => panic!("{:?}", other),
    }
    assert_eq!(
        error_of(process_query("GET contexts-by-channel")),
        "Usage: GET contexts-by-channel <channel_name_substring>"
    );
    assert_eq!(
        error_of(process_query("GET contexts-by-channel \"\"")),
        "Channel name substring cannot be empty"
    );
}

#[test]
fn cleanup_parses_the_age() {
    assert_eq!(error_of(process_query("CLEANUP")), "Usage: CLEANUP <max_age_seconds>");
    assert!(matches!(request_of(process_query("CLEANUP 3600")), DbRequest::Cleanup { max_age_seconds: 3600 }));
    assert!(matches!(request_of(process_query("CLEANUP +5")), DbRequest::Cleanup { max_age_seconds: 5 }));
    assert!(matches!(
        request_of(process_query("CLEANUP 18446744073709551615")),
        DbRequest::Cleanup { max_age_seconds: u64::MAX }
    ));
    assert_eq!(error_of(process_query("CLEANUP 18446744073709551616")), "Invalid max_age_seconds");
    assert_eq!(error_of(process_query("CLEANUP -1")), "Invalid max_age_seconds");
}

fn result(text: &str) -> QueryResult {
    QueryResult { chat_id: 1, chat_name: "c".to_string(), text: text.to_string(), timestamp_us: 5 }
}

#[test]
fn replies_to_store_answers() {
    let req = DbRequest::MessagesByMint { mint: "M".to_string(), use_cache: false };
    match resume_query(req, DbAnswer::Messages(Ok(vec![result("hi")]))) {
        QueryStep::Reply(QueryReply::MintMessages { mint, messages, cached }) => {
            assert_eq!(mint, "M");
            assert_eq!(messages.len(), 1);
            assert_eq!(messages[0].text, "hi");
            assert!(!cached);
        }
        other => panic!("{:?}", other),
    }
    let req = DbRequest::MessagesByMint { mint: "M".to_string(), use_cache: true };
    assert_eq!(
        error_of(resume_query(req, DbAnswer::Messages(Err("down".to_string())))),
        "Failed to query messages: down"
    );
    let req = DbRequest::UniqueChatsForMint { mint: "M".to_string() };
    assert_eq!(error_of(resume_query(req, DbAnswer::Chats(Err("x".to_string())))), "Failed to query chats: x");
    let req = DbRequest::ChatNameById { chat_id: 3 };
    assert_eq!(error_of(resume_query(req, DbAnswer::ChatName(None))), "Chat not found");
    let req = DbRequest::ChatNameById { chat_id: 3 };
    match resume_query(req, DbAnswer::ChatName(Some("three".to_string()))) {
        QueryStep::Reply(QueryReply::ChatFound { chat_id, chat_name }) => {
            assert_eq!(chat_id, 3);
            assert_eq!(chat_name, "three");
        }
        other => panic!("{:?}", other),
    }
    let req = DbRequest::ChatIdByName { chat_name: "n".to_string(), echo_name: false };
    assert!(matches!(
        resume_query(req, DbAnswer::ChatId(Some(9))),
        QueryStep::Reply(QueryReply::ChatIdOnly { chat_id: 9 })
    ));
    let req = DbRequest::ChatIdByName { chat_name: "n".to_string(), echo_name: true };
    match resume_query(req, DbAnswer::ChatId(Some(9))) {
        QueryStep::Reply(QueryReply::ChatFound { chat_id, chat_name }) => {
            assert_eq!(chat_id, 9);
            assert_eq!(chat_name, "n");
        }
        other => panic!("{:?}", other),
    }
    let stats = StoreStats {
        total_messages: 4,
        unique_mints: 2,
        unique_chats: 1,
        oldest_message_us: Some(1),
        newest_message_us: None,
    };
    assert!(matches!(
        resume_query(DbRequest::Stats, DbAnswer::Stats(Ok(stats))),
        QueryStep::Reply(QueryReply::Stats(StoreStats { total_messages: 4, .. }))
    ));
    assert_eq!(
        error_of(resume_query(DbRequest::Stats, DbAnswer::Stats(Err("e".to_string())))),
        "Failed to get stats: e"
    );
    assert_eq!(
        error_of(resume_query(DbRequest::ChatsWithAnyMint, DbAnswer::Chats(Err("e".to_string())))),
        "Failed to query channels with mints: e"
    );
    assert_eq!(
        error_of(resume_query(DbRequest::MintsForChatId { chat_id: 1 }, DbAnswer::Names(Err("e".to_string())))),
        "Failed to query mints for chat: e"
    );
    match resume_query(DbRequest::MintsForChatName { chat_name: "r".to_string() }, DbAnswer::Names(Ok(vec!["a".to_string()]))) {
        QueryStep::Reply(QueryReply::ChannelMintsByName { chat_name, mints }) => {
            assert_eq!(chat_name, "r");
            assert_eq!(mints, vec!["a".to_string()]);
        }
        other => panic!("{:?}", other),
    }
    assert!(matches!(
        resume_query(DbRequest::Cleanup { max_age_seconds: 60 }, DbAnswer::Deleted(Ok(3))),
        QueryStep::Reply(QueryReply::Cleanup { deleted_messages: 3, max_age_seconds: 60 })
    ));
    assert_eq!(
        error_of(resume_query(DbRequest::Cleanup { max_age_seconds: 60 }, DbAnswer::Deleted(Err("no".to_string())))),
        "Cleanup failed: no"
    );
}

#[test]
fn contexts_by_channel_takes_two_steps() {
    let first = request_of(process_query("GET contexts-by-channel Alpha"));
    let second = request_of(resume_query(first, DbAnswer::Chats(Ok(vec![(5, "Alpha Room".to_string())]))));
    match &second {
        DbRequest::ContextsBySubstring { substring, channels } => {
            assert_eq!(substring, "Alpha");
            assert_eq!(channels, &vec![(5, "Alpha Room".to_string())]);
        }
        other => panic!("{:?}", other),
    }
    match resume_query(second, DbAnswer::Names(Ok(vec!["M1".to_string(), "M2".to_string()]))) {
        QueryStep::Reply(QueryReply::Contexts { query, matched_channels, contexts }) => {
            assert_eq!(query, "Alpha");
            assert_eq!(matched_channels.len(), 1);
            assert_eq!(contexts.len(), 2);
        }
        other => panic!("{:?}", other),
    }
    let first = request_of(process_query("GET contexts-by-channel Alpha"));
    assert_eq!(
        error_of(resume_query(first, DbAnswer::Chats(Err("x".to_string())))),
        "Failed to query matched channels: x"
    );
    let req = DbRequest::ContextsBySubstring { substring: "a".to_string(), channels: vec![] };
    assert_eq!(
        error_of(resume_query(req, DbAnswer::Names(Err("y".to_string())))),
        "Failed to query contexts by channel substring: y"
    );
}
