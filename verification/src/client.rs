//! Outbound side: the client record holding the hub's connection string, and
//! the formation of a "host:port" address from a validated config record.

use vstd::prelude::*;
use vstd::string::*;

verus! {

/// The `{ip, port}` record that a validated configuration yields for one
/// address (either the local listen address or the hub address).
pub struct ConfigServer {
    pub ip: Option<String>,
    pub port: Option<String>,
}

/// The connection string formed from an optional ip and port: a missing part
/// contributes nothing, so an all-empty record collapses to the sentinel ":".
pub open spec fn address_view(ip: Option<String>, port: Option<String>) -> Seq<char> {
    (match ip {
        Some(s) => s@,
        None => Seq::<char>::empty(),
    }) + ":"@ + (match port {
        Some(s) => s@,
        None => Seq::<char>::empty(),
    })
}

/// Holds the hub's "host:port" connection string; the transport layer around
/// the library opens the connection and writes the encoded message.
pub struct RoriClient {
    pub address: String,
}

impl RoriClient {
    /// Forms the "ip:port" connection string from a validated config record.
    /// An all-empty record yields the sentinel ":", which callers must report
    /// as a configuration error rather than connect to.
    pub fn parse_config(params: ConfigServer) -> (r: String)
        ensures
            r@ == address_view(params.ip, params.port),
    {
        let mut out = match params.ip {
            Some(s) => s,
            None => String::new(),
        };
        out.append(":");
        match params.port {
            Some(s) => out.append(s.as_str()),
            None => (),
        }
        out
    }
}

} // verus!
