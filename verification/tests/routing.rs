use tcp_router::clients::{Delivery, EthereumClient, OutputClient, SolanaClient, TcpOutputClient, BnbClient};
use tcp_router::config::{
    default_escape_newlines, Config, DatabaseConfig, MonitoringConfig, OutputFormat, QueryServerConfig, RouteConfig,
    TcpInputConfig,
};
use tcp_router::models::{IncomingMessage, OutputArgs, OutputMessage};
use tcp_router::router::Router;
use tcp_router::text::decimal;

const SOL: &str = "So11111111111111111111111111111111111111112";
const SOL2: &str = "7xKXtg2CW87d97TXJSDpbD5jBkheTqA83TZRuJosgAsU";
const EVM: &str = "0xf7e1d005e607edce656ab42bb81ffd1f4ea81110";
const BSC: &str = "0x55d398326f99059ff775485246999027b3197955";

fn route(name: &str, enabled: bool, pattern: &str, channel_field: &str, escape: bool) -> RouteConfig {
    RouteConfig {
        name: name.to_string(),
        enabled,
        pattern: pattern.to_string(),
        output_type: "tcp".to_string(),
        output_address: format!("127.0.0.1:9{}", name.len()),
        output_format: OutputFormat {
            context: "ctx".to_string(),
            command: format!("{}_cmd", name),
            channel_field: channel_field.to_string(),
            text_field: "text".to_string(),
            timestamp_field: "ts".to_string(),
            escape_newlines: escape,
        },
        chain_hints: vec![],
    }
}

fn config(routes: Vec<RouteConfig>) -> Config {
    Config {
        tcp_input: TcpInputConfig { listen_address: "127.0.0.1:8080".to_string() },
        routes,
        monitoring: MonitoringConfig {
            log_messages: false,
            log_errors: false,
            log_connections: false,
            log_forwarding: false,
            log_forwarding_payload: false,
            log_incoming_payload: false,
        },
        database: DatabaseConfig {
            host: "localhost".to_string(),
            port: 5432,
            user: "u".to_string(),
            password: "p".to_string(),
            dbname: "d".to_string(),
            pool_size: 4,
            cache_size_mb: 1,
            cache_ttl_seconds: 60,
            compress_messages: true,
        },
        query_server: QueryServerConfig { enabled: true, listen_address: "127.0.0.1:8081".to_string() },
    }
}

fn s(v: &[&str]) -> Vec<String> {
    v.iter().map(|x| x.to_string()).collect()
}

fn message() -> IncomingMessage {
    IncomingMessage {
        chat_id: -1001441780077,
        chat_name: "MadApes".to_string(),
        images: vec![],
        mints: s(&[SOL, EVM, BSC, "short", EVM]),
        text: "line one\nline two".to_string(),
        tokens: vec![],
        context: "original".to_string(),
        pool: None,
        ethereum_mints: vec![],
        evm_mints: vec![],
        solana_mints: s(&[SOL2]),
        bsc_mints: s(&[BSC]),
        addresses: Some(vec![
            ("solana".to_string(), s(&[SOL])),
            ("unknown".to_string(), s(&["zzz"])),
        ]),
        pools: s(&["PoolAAAAAAAAAAAAAAAAAAAAAAAAAAAAAAAAAAAA"]),
        solana_pools: vec![],
        ethereum_pools: vec![],
        evm_pools: vec![],
        bsc_pools: vec![],
        pool_addresses: Some(vec![("evm".to_string(), s(&["0xpool"]))]),
        base_mints: s(&["0xbase"]),
        base_pools: vec![],
    }
}

#[test]
fn enabled_routes_keep_their_order() {
    let c = config(vec![
        route("solana", true, "x", "chat_name", false),
        route("ethereum", false, "x", "chat_name", false),
        route("bnb", true, "x", "chat_name", false),
    ]);
    let names: Vec<&str> = c.get_enabled_routes().iter().map(|r| r.name.as_str()).collect();
    assert_eq!(names, vec!["solana", "bnb"]);
    assert!(!default_escape_newlines());
}

#[test]
fn router_needs_valid_patterns_on_enabled_routes() {
    let ok = config(vec![route("solana", true, "^[1-9A-HJ-NP-Za-km-z]+$", "chat_name", false)]);
    assert!(Router::new(ok).is_ok());
    let bad = config(vec![route("solana", true, "foo(bar", "chat_name", false)]);
    assert!(Router::new(bad).is_err());
    let disabled = config(vec![route("solana", false, "foo(bar", "chat_name", false)]);
    assert!(Router::new(disabled).is_ok());
}

#[test]
fn plan_stores_every_address_once_in_order() {
    let router = Router::new(config(vec![
        route("solana", true, ".*", "chat_id", true),
        route("ethereum", true, ".*", "chat_name", false),
        route("bnb", true, ".*", "id", false),
    ]))
    .unwrap();
    let plan = router.plan_message(&message(), 1234);
    let keys: Vec<&str> = plan.stores.iter().map(|r| r.mint.as_str()).collect();
    let mut expected = vec![SOL, EVM, BSC, "short", SOL2, "zzz", "0xbase"];
    expected.sort();
    expected.dedup();
    let mut all: Vec<String> = expected.iter().map(|x| x.to_string()).collect();
    all.push("pool:0xpool".to_string());
    all.push("pool:PoolAAAAAAAAAAAAAAAAAAAAAAAAAAAAAAAAAAAA".to_string());
    assert_eq!(keys, all.iter().map(|x| x.as_str()).collect::<Vec<_>>());
    for r in &plan.stores {
        assert_eq!(r.timestamp_us, 1234);
        assert_eq!(r.chat_id, -1001441780077);
        assert_eq!(r.text, "line one\nline two");
        assert!(r.escape_newlines);
    }
}

#[test]
fn plan_forwards_by_chain() {
    let router = Router::new(config(vec![
        route("solana", true, ".*", "chat_id", false),
        route("ethereum", true, ".*", "chat_name", false),
        route("bnb", true, ".*", "id", false),
    ]))
    .unwrap();
    let plan = router.plan_message(&message(), 77);
    let got: Vec<(&str, &str)> =
        plan.forwards.iter().map(|f| (f.route_name.as_str(), f.address.as_str())).collect();
    let mut sol = vec![SOL, SOL2];
    sol.sort();
    assert_eq!(
        got,
        vec![
            ("solana", sol[0]),
            ("solana", sol[1]),
            ("solana", "PoolAAAAAAAAAAAAAAAAAAAAAAAAAAAAAAAAAAAA"),
            ("ethereum", EVM),
            ("ethereum", "0xpool"),
            ("bnb", BSC),
            ("ethereum", "0xbase"),
        ]
    );
    let first = &plan.forwards[0];
    assert_eq!(first.message.context, sol[0]);
    assert_eq!(first.message.command, "solana_cmd");
    assert_eq!(first.message.args.channel, "-1001441780077");
    assert_eq!(first.message.args.ts, 77);
    assert_eq!(first.message.args.text, "line one\nline two");
    assert!(first.message.pool.is_none());
    let pool = &plan.forwards[2];
    assert_eq!(pool.message.context, "original");
    assert_eq!(pool.message.pool.as_deref(), Some("PoolAAAAAAAAAAAAAAAAAAAAAAAAAAAAAAAAAAAA"));
    assert_eq!(plan.forwards[3].message.args.channel, "MadApes");
    assert_eq!(plan.forwards[5].message.args.channel, "-1001441780077");
    for f in &plan.forwards {
        match &f.delivery {
            Ok(Delivery::Tcp { address }) => assert_eq!(address, &f.output_address),
            other => panic!("{:?}", other),
        }
        let key = match &f.message.pool {
            Some(_) => format!("pool:{}", f.address),
            None => f.address.clone(),
        };
        assert!(plan.stores.iter().any(|r| r.mint == key));
    }
}

#[test]
fn plan_skips_chains_without_a_route() {
    let router = Router::new(config(vec![route("ethereum", true, ".*", "chat_name", false)])).unwrap();
    let plan = router.plan_message(&message(), 1);
    assert!(plan.forwards.iter().all(|f| f.route_name == "ethereum"));
    assert_eq!(plan.forwards.len(), 3);
    assert!(plan.stores.iter().all(|r| !r.escape_newlines));
}

#[test]
fn process_message_stamps_the_current_time() {
    let router = Router::new(config(vec![route("solana", true, ".*", "chat_name", false)])).unwrap();
    let plan = router.process_message(&message()).unwrap();
    assert!(plan.timestamp_us > 1_500_000_000_000_000);
    assert!(plan.stores.iter().all(|r| r.timestamp_us == plan.timestamp_us));
}

#[test]
fn bnb_context_is_found_case_insensitively() {
    let router = Router::new(config(vec![])).unwrap();
    assert!(router.is_bnb_address("x", "Trade it on PancakeSwap"));
    assert!(router.is_bnb_address("x", "BEP20 token"));
    assert!(router.is_bnb_address("x", "ΒΙΝΑΝCΕ bsc"));
    assert!(!router.is_bnb_address("x", "an Ethereum token"));
    assert!(!router.is_bnb_address("x", ""));
}

fn output() -> OutputMessage {
    OutputMessage {
        context: "c".to_string(),
        command: "cmd".to_string(),
        args: OutputArgs { channel: "ch".to_string(), ts: 1, text: "t".to_string() },
        pool: None,
    }
}

#[test]
fn clients_deliver_by_output_type() {
    let mut r = route("ethereum", true, ".*", "chat_name", false);
    assert_eq!(
        EthereumClient::new().forward_message(&output(), &r),
        Ok(Delivery::Tcp { address: r.output_address.clone() })
    );
    r.output_type = "stdout".to_string();
    assert_eq!(
        SolanaClient::new().forward_message(&output(), &r),
        Ok(Delivery::Stdout { label: "ethereum".to_string() })
    );
    r.output_type = "udp".to_string();
    assert_eq!(
        BnbClient::new().forward_message(&output(), &r),
        Err("Unknown output type: udp".to_string())
    );
    assert_eq!(
        TcpOutputClient::new().send_message(&output(), &r),
        Err("Unknown output type: udp".to_string())
    );
}

#[test]
fn decimal_matches_to_string() {
    for v in [0i64, 7, -7, 10, 1234567890, -1001441780077, i64::MAX, i64::MIN] {
        assert_eq!(decimal(v), v.to_string());
        assert_eq!(decimal(v).parse::<i64>().unwrap(), v);
    }
}
