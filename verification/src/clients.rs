//! The per-chain clients that forward output messages. A client decides how
//! a message of a route is delivered; the delivery itself (a TCP write or a
//! line on standard output) is made by the caller.

use vstd::prelude::*;
use crate::config::RouteConfig;
use crate::models::OutputMessage;
use crate::text::str_eq;

verus! {

/// How an output message is to be delivered.
#[derive(Debug, Clone, PartialEq, Eq)]
pub enum Delivery {
    /// As one JSON line over a TCP connection to `address`.
    Tcp { address: String },
    /// As one JSON line on standard output, labelled with the route's name.
    Stdout { label: String },
}

/// The delivery that a route of output type `output_type` asks for, or the
/// error message for an unknown type.
pub open spec fn delivery_for(route: RouteConfig, r: Result<Delivery, String>) -> bool {
    if route.output_type@ == "tcp"@ {
        r matches Ok(Delivery::Tcp { address }) && address@ == route.output_address@
    } else if route.output_type@ == "stdout"@ {
        r matches Ok(Delivery::Stdout { label }) && label@ == route.name@
    } else {
        r matches Err(e) && e@ == "Unknown output type: "@ + route.output_type@
    }
}

/// Something that decides how output messages are delivered.
pub trait OutputClient {
    fn send_message(&self, message: &OutputMessage, route: &RouteConfig) -> Result<
        Delivery,
        String,
    >;
}

/// The client that delivers by the route's output type.
pub struct TcpOutputClient;

impl TcpOutputClient {
    pub fn new() -> (r: Self) {
        TcpOutputClient
    }
}

impl OutputClient for TcpOutputClient {
    fn send_message(&self, message: &OutputMessage, route: &RouteConfig) -> (r: Result<
        Delivery,
        String,
    >)
        ensures
            delivery_for(*route, r),
    {
        if str_eq(route.output_type.as_str(), "tcp") {
            Ok(Delivery::Tcp { address: route.output_address.clone() })
        } else if str_eq(route.output_type.as_str(), "stdout") {
            Ok(Delivery::Stdout { label: route.name.clone() })
        } else {
            let mut e = "Unknown output type: ".to_owned();
            e.append(route.output_type.as_str());
            Err(e)
        }
    }
}

/// The client of the Solana route.
pub struct SolanaClient {
    tcp_client: TcpOutputClient,
}

impl SolanaClient {
    pub fn new() -> (r: Self) {
        SolanaClient { tcp_client: TcpOutputClient::new() }
    }

    pub fn forward_message(&self, message: &OutputMessage, route: &RouteConfig) -> (r: Result<
        Delivery,
        String,
    >)
        ensures
            delivery_for(*route, r),
    {
        self.tcp_client.send_message(message, route)
    }
}

/// The client of the Ethereum route.
pub struct EthereumClient {
    tcp_client: TcpOutputClient,
}

impl EthereumClient {
    pub fn new() -> (r: Self) {
        EthereumClient { tcp_client: TcpOutputClient::new() }
    }

    pub fn forward_message(&self, message: &OutputMessage, route: &RouteConfig) -> (r: Result<
        Delivery,
        String,
    >)
        ensures
            delivery_for(*route, r),
    {
        self.tcp_client.send_message(message, route)
    }
}

/// The client of the BNB route.
pub struct BnbClient {
    tcp_client: TcpOutputClient,
}

impl BnbClient {
    pub fn new() -> (r: Self) {
        BnbClient { tcp_client: TcpOutputClient::new() }
    }

    pub fn forward_message(&self, message: &OutputMessage, route: &RouteConfig) -> (r: Result<
        Delivery,
        String,
    >)
        ensures
            delivery_for(*route, r),
    {
        self.tcp_client.send_message(message, route)
    }
}

} // verus!
