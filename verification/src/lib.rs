//! Verified core of a TCP message router: address collection and routing
//! decisions, the query protocol, the message codec and the caches in front
//! of the message store.

pub mod text;
pub mod clock;
pub mod config;
pub mod models;
pub mod clients;
pub mod sorted;
pub mod router;
pub mod query_server;
pub mod database;
pub mod test_client;
