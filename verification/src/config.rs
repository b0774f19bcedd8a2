//! The router's configuration, as read from its settings file.

use vstd::prelude::*;
use crate::text::copy_strings;

verus! {

#[derive(Debug, Clone)]
pub struct Config {
    pub tcp_input: TcpInputConfig,
    pub routes: Vec<RouteConfig>,
    pub monitoring: MonitoringConfig,
    pub database: DatabaseConfig,
    pub query_server: QueryServerConfig,
}

#[derive(Debug, Clone)]
pub struct TcpInputConfig {
    pub listen_address: String,
}

/// One output route: where the addresses of one chain are forwarded.
#[derive(Debug, Clone)]
pub struct RouteConfig {
    pub name: String,
    pub enabled: bool,
    pub pattern: String,
    pub output_type: String,
    pub output_address: String,
    pub output_format: OutputFormat,
    pub chain_hints: Vec<String>,
}

/// How the messages of a route are shaped.
#[derive(Debug, Clone)]
pub struct OutputFormat {
    pub context: String,
    pub command: String,
    pub channel_field: String,
    pub text_field: String,
    pub timestamp_field: String,
    pub escape_newlines: bool,
}

/// The value of `escape_newlines` when the settings file leaves it out.
pub fn default_escape_newlines() -> (r: bool)
    ensures
        r == false,
{
    false
}

#[derive(Debug, Clone)]
pub struct MonitoringConfig {
    pub log_messages: bool,
    pub log_errors: bool,
    pub log_connections: bool,
    pub log_forwarding: bool,
    pub log_forwarding_payload: bool,
    pub log_incoming_payload: bool,
}

#[derive(Debug, Clone)]
pub struct DatabaseConfig {
    pub host: String,
    pub port: u16,
    pub user: String,
    pub password: String,
    pub dbname: String,
    pub pool_size: usize,
    pub cache_size_mb: usize,
    pub cache_ttl_seconds: u64,
    pub compress_messages: bool,
}

#[derive(Debug, Clone)]
pub struct QueryServerConfig {
    pub enabled: bool,
    pub listen_address: String,
}

impl OutputFormat {
    /// A field-by-field copy.
    pub fn duplicate(&self) -> (r: OutputFormat)
        ensures
            r == *self,
    {
        OutputFormat {
            context: self.context.clone(),
            command: self.command.clone(),
            channel_field: self.channel_field.clone(),
            text_field: self.text_field.clone(),
            timestamp_field: self.timestamp_field.clone(),
            escape_newlines: self.escape_newlines,
        }
    }
}

impl RouteConfig {
    /// A field-by-field copy.
    pub fn duplicate(&self) -> (r: RouteConfig)
        ensures
            r.name == self.name,
            r.enabled == self.enabled,
            r.pattern == self.pattern,
            r.output_type == self.output_type,
            r.output_address == self.output_address,
            r.output_format == self.output_format,
            r.chain_hints@ == self.chain_hints@,
    {
        RouteConfig {
            name: self.name.clone(),
            enabled: self.enabled,
            pattern: self.pattern.clone(),
            output_type: self.output_type.clone(),
            output_address: self.output_address.clone(),
            output_format: self.output_format.duplicate(),
            chain_hints: copy_strings(&self.chain_hints),
        }
    }
}

/// The enabled routes of `routes`, in order.
pub open spec fn enabled_routes(routes: Seq<RouteConfig>) -> Seq<RouteConfig> {
    routes.filter(|r: RouteConfig| r.enabled)
}

impl Config {
    /// The routes that are enabled, in the order the settings list them.
    pub fn get_enabled_routes(&self) -> (r: Vec<&RouteConfig>)
        ensures
            r@.map_values(|p: &RouteConfig| *p) == enabled_routes(self.routes@),
    {
        let mut r: Vec<&RouteConfig> = Vec::new();
        let mut i: usize = 0;
        while i < self.routes.len()
            invariant
                i <= self.routes@.len(),
                r@.map_values(|p: &RouteConfig| *p) == enabled_routes(self.routes@.take(i as int)),
            decreases self.routes@.len() - i,
        {
            let ghost before = self.routes@.take(i as int);
            assert(self.routes@.take(i + 1).drop_last() =~= before);
            assert(self.routes@.take(i + 1).last() == self.routes@[i as int]);
            reveal_with_fuel(Seq::filter, 1);
            if self.routes[i].enabled {
                r.push(&self.routes[i]);
            }
            i = i + 1;
            assert(r@.map_values(|p: &RouteConfig| *p) =~= enabled_routes(self.routes@.take(i as int)));
        }
        assert(self.routes@.take(self.routes@.len() as int) =~= self.routes@);
        r
    }
}

} // verus!
