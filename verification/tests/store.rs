use tcp_router::clock::{get_timestamp_micros, micros_from, nanos_from, now_nanos, EPOCH_NS};
use tcp_router::config::DatabaseConfig;
use tcp_router::database::cache::{ChatCache, MintCache};
use tcp_router::database::codec::{decode_text, encode_text, normalize_text};
use tcp_router::database::manager::{DatabaseManager, MessageRow};
use tcp_router::database::models::{duplicate_all, QueryResult};
use tcp_router::test_client::MessageData;

fn db_config(compress: bool) -> DatabaseConfig {
    DatabaseConfig {
        host: "h".to_string(),
        port: 1,
        user: "u".to_string(),
        password: "p".to_string(),
        dbname: "d".to_string(),
        pool_size: 2,
        cache_size_mb: 1,
        cache_ttl_seconds: 10,
        compress_messages: compress,
    }
}

fn q(text: &str) -> QueryResult {
    QueryResult { chat_id: 5, chat_name: "room".to_string(), text: text.to_string(), timestamp_us: 9 }
}

#[test]
fn newlines_are_escaped_on_request() {
    assert_eq!(normalize_text("a\nb\n", true), "a\\nb\\n");
    assert_eq!(normalize_text("a\nb", false), "a\nb");
    assert!(!normalize_text("\n\n\n", true).contains('\n'));
}

#[test]
fn stored_text_reads_back() {
    let text = "héllo wörld, héllo wörld, héllo wörld — again and again and again";
    let (packed, compressed) = encode_text(text, true).unwrap();
    assert!(compressed);
    assert_ne!(packed, text.as_bytes().to_vec());
    assert_eq!(decode_text(&packed, true).unwrap(), text);
    let (raw, compressed) = encode_text(text, false).unwrap();
    assert!(!compressed);
    assert_eq!(raw, text.as_bytes().to_vec());
    assert_eq!(decode_text(&raw, false).unwrap(), text);
    let (empty, _) = encode_text("", true).unwrap();
    assert_eq!(decode_text(&empty, true).unwrap(), "");
}

#[test]
fn bad_bytes_are_errors() {
    let e = decode_text(&[0xff, 0xfe], false).unwrap_err();
    assert!(e.starts_with("Invalid UTF-8: "));
    let e = decode_text(&[0xf0, 0x01, 0x02], true).unwrap_err();
    assert!(e.starts_with("Decompression failed: "));
    let (packed, _) = encode_text("ok", false).unwrap();
    let _ = packed;
}

#[test]
fn chat_cache_reads_what_was_inserted() {
    let mut c = ChatCache::new(2);
    assert_eq!(c.get_name(1), None);
    c.insert(1, "one".to_string());
    assert_eq!(c.get_name(1), Some("one".to_string()));
    assert_eq!(c.get_id("one"), Some(1));
    c.insert(1, "uno".to_string());
    assert_eq!(c.get_name(1), Some("uno".to_string()));
    assert_eq!(c.get_id("uno"), Some(1));
}

#[test]
fn chat_cache_evicts_least_recently_used() {
    let mut c = ChatCache::new(2);
    c.insert(1, "a".to_string());
    c.insert(2, "b".to_string());
    assert_eq!(c.get_name(1), Some("a".to_string()));
    c.insert(3, "c".to_string());
    assert_eq!(c.get_name(2), None);
    assert_eq!(c.get_name(1), Some("a".to_string()));
    assert_eq!(c.get_name(3), Some("c".to_string()));
    let mut zero = ChatCache::new(0);
    zero.insert(1, "a".to_string());
    zero.insert(2, "b".to_string());
    assert_eq!(zero.get_name(1), None);
    assert_eq!(zero.get_name(2), Some("b".to_string()));
}

#[test]
fn mint_cache_honours_the_time_to_live() {
    let mut c = MintCache::new(4, 10);
    let t = 1_000_000_000_000u128;
    c.put_at("M".to_string(), vec![q("x")], t);
    assert_eq!(c.get_at("M", t).unwrap()[0].text, "x");
    assert_eq!(c.get_at("M", t + 9_999_999_999).unwrap().len(), 1);
    assert!(c.get_at("M", t + 10_000_000_000).is_none());
    assert!(c.get_at("M", t - 1).is_none());
    assert!(c.get_at("other", t).is_none());
}

#[test]
fn mint_cache_stays_within_capacity() {
    let mut c = MintCache::new(2, 10);
    c.put_at("A".to_string(), vec![q("a")], 5);
    c.put_at("B".to_string(), vec![q("b")], 5);
    assert!(c.get_at("A", 5).is_some());
    c.put_at("C".to_string(), vec![q("c")], 5);
    assert!(c.get_at("B", 5).is_none());
    assert_eq!(c.get_at("A", 5).unwrap()[0].text, "a");
    assert_eq!(c.get_at("C", 5).unwrap()[0].text, "c");
}

#[test]
fn mint_cache_invalidate_and_clear() {
    let mut c = MintCache::new(4, 10);
    c.put_at("M".to_string(), vec![q("x")], 5);
    c.put_at("N".to_string(), vec![q("y")], 5);
    c.invalidate("M");
    assert!(c.get_at("M", 5).is_none());
    assert!(c.get_at("N", 5).is_some());
    c.clear();
    assert!(c.get_at("N", 5).is_none());
    c.put("P".to_string(), vec![q("z")]);
    assert_eq!(c.get("P").unwrap()[0].text, "z");
}

#[test]
fn mint_cache_cleanup_drops_only_expired() {
    let mut c = MintCache::new(8, 10);
    let s = 1_000_000_000u128;
    c.put_at("old".to_string(), vec![q("a")], 0);
    c.put_at("new".to_string(), vec![q("b")], 5 * s);
    c.put_at("future".to_string(), vec![q("c")], 100 * s);
    c.cleanup_expired_at(12 * s);
    assert!(c.get_at("old", 12 * s).is_none());
    assert!(c.get_at("new", 12 * s).is_some());
    assert!(c.get_at("future", 100 * s).is_some());
    c.cleanup_expired();
}

#[test]
fn mint_cache_zero_time_to_live_keeps_nothing_fresh() {
    let mut c = MintCache::new(1, 0);
    c.put_at("M".to_string(), vec![q("x")], 3);
    assert!(c.get_at("M", 3).is_none());
    c.cleanup_expired_at(3);
    c.put_at("N".to_string(), vec![q("x")], 3);
    c.put_at("O".to_string(), vec![q("y")], 3);
    assert!(c.get_at("N", 2).is_none());
}

#[test]
fn capacity_follows_the_configured_size() {
    assert_eq!(DatabaseManager::cache_capacity_entries(0), 1024);
    assert_eq!(DatabaseManager::cache_capacity_entries(1), 1024);
    assert_eq!(DatabaseManager::cache_capacity_entries(64), 65536);
}

#[test]
fn cutoff_subtracts_the_age() {
    assert_eq!(DatabaseManager::cutoff_from(10_000_000, 3), 7_000_000);
    assert_eq!(DatabaseManager::cutoff_from(0, 0), 0);
    assert_eq!(DatabaseManager::cutoff_from(5, u64::MAX), i64::MIN);
    let now = get_timestamp_micros().unwrap();
    let c = DatabaseManager::cutoff_timestamp_us(60);
    assert!(c <= now - 59_000_000 && c >= now - 61_000_000);
}

#[test]
fn clock_readings_sit_above_the_epoch_and_advance() {
    let a = now_nanos();
    let b = now_nanos();
    assert!(a > EPOCH_NS + 1_500_000_000_000_000_000);
    assert!(b >= a);
    let micros = get_timestamp_micros().unwrap() as u128;
    let since_epoch = (now_nanos() - EPOCH_NS) / 1000;
    assert!(since_epoch >= micros && since_epoch - micros < 60_000_000);
}

#[test]
fn clock_conversions() {
    assert_eq!(micros_from(2, 3_500), 2_000_003);
    assert_eq!(micros_from(u64::MAX, 0), i64::MAX);
    assert_eq!(nanos_from(2, 5), 2_000_000_005);
    assert!(get_timestamp_micros().unwrap() > 1_500_000_000_000_000);
}

#[test]
fn store_then_read_through_the_manager() {
    let mut m = DatabaseManager::new(db_config(true));
    let (bytes, compressed) = m.prepare_message("hello\nthere", true).unwrap();
    assert!(compressed);
    m.record_stored("MINT", 42, "answers");
    assert_eq!(m.cached_chat_name(42), Some("answers".to_string()));
    assert_eq!(m.cached_chat_id("answers"), Some(42));
    let row = MessageRow { chat_id: 42, chat_name: "answers".to_string(), text: bytes, timestamp_us: 7, compressed };
    let read = m.map_message_row(&row).unwrap();
    assert_eq!(read.text, "hello\\nthere");
    let msgs = m.messages_from_rows_at("MINT", true, vec![row.clone()], 100).unwrap();
    assert_eq!(msgs.len(), 1);
    assert_eq!(m.cached_messages_at("MINT", true, 100).unwrap()[0].text, "hello\\nthere");
    assert!(m.cached_messages_at("MINT", false, 100).is_none());
    m.record_stored("MINT", 42, "answers");
    assert!(m.cached_messages_at("MINT", true, 100).is_none());
    let bad = MessageRow { chat_id: 1, chat_name: "x".to_string(), text: vec![0xff], timestamp_us: 1, compressed: false };
    assert!(m.messages_from_rows_at("B", true, vec![row, bad], 100).is_err());
    assert!(m.cached_messages_at("B", true, 100).is_none());
}

#[test]
fn rows_read_now_are_cached_and_errors_name_the_step() {
    let mut m = DatabaseManager::new(db_config(false));
    let row = MessageRow { chat_id: 3, chat_name: "c".to_string(), text: b"hi".to_vec(), timestamp_us: 2, compressed: false };
    let msgs = m.messages_from_rows("N", true, vec![row.clone()]).unwrap();
    assert_eq!(msgs[0].text, "hi");
    assert_eq!(m.try_get_cached_messages("N").unwrap()[0].text, "hi");
    assert_eq!(m.cached_messages("N", true).unwrap()[0].text, "hi");
    assert!(m.cached_messages("N", false).is_none());
    let not_utf8 = MessageRow { text: vec![0xff], ..row.clone() };
    let e = m.messages_from_rows("P", true, vec![row.clone(), not_utf8]).unwrap_err();
    assert!(e.starts_with("Invalid UTF-8: "));
    assert!(m.try_get_cached_messages("P").is_none());
    let not_lz4 = MessageRow { text: vec![0xf0, 0x01], compressed: true, ..row };
    let e = m.messages_from_rows("Q", true, vec![not_lz4]).unwrap_err();
    assert!(e.starts_with("Decompression failed: "));
}

#[test]
fn empty_results_are_not_cached() {
    let mut m = DatabaseManager::new(db_config(false));
    assert!(m.messages_from_rows_at("E", true, vec![], 1).unwrap().is_empty());
    assert!(m.cached_messages_at("E", true, 1).is_none());
    let msgs = m.messages_from_rows("F", true, vec![]).unwrap();
    assert!(msgs.is_empty());
    m.after_cleanup();
    assert!(m.try_get_cached_messages("F").is_none());
}

#[test]
fn cleanup_empties_the_mint_cache() {
    let mut m = DatabaseManager::new(db_config(false));
    let (bytes, c) = m.prepare_message("x", false).unwrap();
    let row = MessageRow { chat_id: 1, chat_name: "x".to_string(), text: bytes, timestamp_us: 1, compressed: c };
    m.messages_from_rows_at("M", true, vec![row], 50).unwrap();
    assert!(m.cached_messages_at("M", true, 50).is_some());
    m.after_cleanup_at(50);
    assert!(m.cached_messages_at("M", true, 50).is_none());
}

#[test]
fn duplicates_are_equal() {
    let v = vec![q("a"), q("b")];
    let d = duplicate_all(&v);
    assert_eq!(d.len(), 2);
    assert_eq!(d[1].text, "b");
}

#[test]
fn sample_message_for_a_token() {
    let m = MessageData::new("0xabc");
    assert_eq!(m.chat_id, -1001441780077);
    assert_eq!(m.chat_name, "MadApes");
    assert_eq!(m.links, vec!["https://www.livo.trade/token/0xabc".to_string()]);
    assert_eq!(m.text, "Rebecca tweet about this cat\n\nhttps://www.livo.trade/token/0xabc");
    assert_eq!(m.mints, vec!["0xabc".to_string()]);
    assert_eq!(m.addresses.ethereum, vec!["0xabc".to_string()]);
    assert!(m.addresses.solana.is_empty());
}
