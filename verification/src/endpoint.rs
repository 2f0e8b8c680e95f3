//! Endpoint state and the hub-facing rules: building the endpoint from a
//! validated configuration record, deciding whether an incoming message is
//! authorized, building the registration message, and the per-connection
//! processing that feeds the inbound queue.

use vstd::prelude::*;
use vstd::string::*;
use crate::client::{address_view, ConfigServer, RoriClient};
use crate::data::{decode_spec, DecodeError, RoriData};
use crate::text::{lower, lower_of, str_eq};
use crypto::digest::Digest;
use crypto::sha2::Sha256;

verus! {

/// A configured principal allowed to submit messages: a client name and the
/// hex-encoded SHA-256 digest of its shared secret, stored pre-hashed so the
/// configuration never holds the plaintext.
pub struct AuthorizedUser {
    pub name: Option<String>,
    pub secret: Option<String>,
}

/// The hub-side part of a validated configuration record.
pub struct RoriServer {
    pub rori_ip: Option<String>,
    pub rori_port: Option<String>,
    pub cert: Option<String>,
    pub key: Option<String>,
    pub secret: Option<String>,
    pub authorize: Vec<AuthorizedUser>,
}

/// The identity part of a validated configuration record.
pub struct EndpointDetails {
    pub owner: Option<String>,
    pub name: Option<String>,
    pub compatible_types: Option<String>,
}

/// The value of an optional configuration string: missing means empty.
pub open spec fn or_empty_view(o: Option<String>) -> Seq<char> {
    match o {
        Some(s) => s@,
        None => Seq::<char>::empty(),
    }
}

fn or_empty(o: Option<String>) -> (r: String)
    ensures
        r@ == or_empty_view(o),
{
    match o {
        Some(s) => s,
        None => String::new(),
    }
}

/// What the SHA-256 digest, hex-encoded, of a string is: a function of the
/// input characters alone.
pub uninterp spec fn sha256_hex_of(s: Seq<char>) -> Seq<char>;

/// Relies on crypto::sha2::Sha256 through crypto::digest::Digest: feeding the
/// string with `input_str` and reading `result_str` yields the hex-encoded
/// SHA-256 digest of its UTF-8 bytes, a deterministic function of the input.
#[verifier::external_body]
fn sha256_hex(s: &str) -> (r: String)
    ensures
        r@ == sha256_hex_of(s@),
{
    let mut hasher = Sha256::new();
    hasher.input_str(s);
    hasher.result_str()
}

/// One authorized entry admits a message when the client names match and the
/// digest of the received secret matches the stored digest, both
/// case-insensitively.
pub open spec fn entry_admits(entry: AuthorizedUser, client: Seq<char>, secret: Seq<char>) -> bool {
    &&& lower_of(or_empty_view(entry.name)) == lower_of(client)
    &&& lower_of(sha256_hex_of(secret)) == lower_of(or_empty_view(entry.secret))
}

/// Handles data coming from RORI: the endpoint's addresses, identity,
/// transport credentials and authorized clients.
pub struct RoriEndpoint {
    pub address: String,
    pub rori_address: String,
    pub is_registered: bool,
    pub owner: String,
    pub name: String,
    pub compatible_types: String,
    pub cert: String,
    pub key: String,
    pub secret: String,
    pub authorize: Vec<AuthorizedUser>,
}

impl RoriEndpoint {
    /// Forms the listen address from a validated config record, exactly as
    /// the outbound client forms the hub address.
    pub fn parse_config_server(params: ConfigServer) -> (r: String)
        ensures
            r@ == address_view(params.ip, params.port),
    {
        RoriClient::parse_config(params)
    }

    /// Builds the endpoint from a validated configuration record: missing
    /// strings become empty, both addresses are formed as "ip:port" (the
    /// all-empty sentinel ":" included), and the endpoint starts unregistered.
    pub fn new(server: ConfigServer, rori: RoriServer, details: EndpointDetails) -> (r:
        RoriEndpoint)
        ensures
            r.address@ == address_view(server.ip, server.port),
            r.rori_address@ == address_view(rori.rori_ip, rori.rori_port),
            !r.is_registered,
            r.owner@ == or_empty_view(details.owner),
            r.name@ == or_empty_view(details.name),
            r.compatible_types@ == or_empty_view(details.compatible_types),
            r.cert@ == or_empty_view(rori.cert),
            r.key@ == or_empty_view(rori.key),
            r.secret@ == or_empty_view(rori.secret),
            r.authorize == rori.authorize,
    {
        let RoriServer { rori_ip, rori_port, cert, key, secret, authorize } = rori;
        let address = RoriClient::parse_config(server);
        let rori_address = RoriClient::parse_config(ConfigServer { ip: rori_ip, port: rori_port });
        RoriEndpoint {
            address,
            rori_address,
            is_registered: false,
            owner: or_empty(details.owner),
            name: or_empty(details.name),
            compatible_types: or_empty(details.compatible_types),
            cert: or_empty(cert),
            key: or_empty(key),
            secret: or_empty(secret),
            authorize,
        }
    }

    /// Decides whether a message comes from an authorized client: the digest
    /// of the received secret and the client name are held, case-
    /// insensitively, against the configured entries; any match admits.
    pub fn is_authorized(&self, data: RoriData) -> (r: bool)
        requires
            forall|i: int|
                0 <= i < self.authorize@.len() ==> (#[trigger] self.authorize@[i]).name is Some
                    && self.authorize@[i].secret is Some,
        ensures
            r == exists|i: int|
                0 <= i < self.authorize@.len() && entry_admits(
                    #[trigger] self.authorize@[i],
                    data.client@,
                    data.secret@,
                ),
    {
        let hashed = sha256_hex(data.secret.as_str());
        let hl = lower(hashed.as_str());
        let cl = lower(data.client.as_str());
        let n = self.authorize.len();
        let mut i: usize = 0;
        while i < n
            invariant
                i <= n,
                n == self.authorize@.len(),
                hl@ == lower_of(sha256_hex_of(data.secret@)),
                cl@ == lower_of(data.client@),
                forall|j: int|
                    0 <= j < self.authorize@.len() ==> (#[trigger] self.authorize@[j]).name is Some
                        && self.authorize@[j].secret is Some,
                forall|j: int|
                    0 <= j < i ==> !entry_admits(
                        #[trigger] self.authorize@[j],
                        data.client@,
                        data.secret@,
                    ),
            decreases n - i,
        {
            let entry = &self.authorize[i];
            match (&entry.name, &entry.secret) {
                (Some(nm), Some(sc)) => {
                    let nl = lower(nm.as_str());
                    let sl = lower(sc.as_str());
                    if nl == cl && hl == sl {
                        return true;
                    }
                },
                _ => {
                    proof {
                        assert(false);
                    }
                },
            }
            i = i + 1;
        }
        false
    }

    /// Builds the registration message: content is
    /// "<own listen address>|<compatible types>", the datatype is "register",
    /// and the endpoint signs with its own identity and secret.
    pub fn registration_data(&self) -> (r: RoriData)
        ensures
            r@.author == self.owner@,
            r@.content == self.address@ + "|"@ + self.compatible_types@,
            r@.client == self.name@,
            r@.datatype == "register"@,
            r@.secret == self.secret@,
    {
        let mut content = self.address.clone();
        content.append("|");
        content.append(self.compatible_types.as_str());
        RoriData::new(
            self.owner.clone(),
            content,
            self.name.clone(),
            String::from_str("register"),
            self.secret.clone(),
        )
    }
}

/// One connection's processing: decode the blob; a "text" message appends its
/// content to the inbound queue; any other datatype (such as "register") is
/// accepted at the transport level but not enqueued; a malformed blob fails
/// and changes nothing. Errors never terminate the caller's accept loop.
pub fn process_incoming(blob: String, queue: &mut Vec<String>) -> (r: Result<(), DecodeError>)
    ensures
        match decode_spec(blob@) {
            Some(v) => r is Ok && (if v.datatype == "text"@ {
                final(queue).deep_view() == old(queue).deep_view().push(v.content)
            } else {
                final(queue)@ == old(queue)@
            }),
            None => r matches Err(e) && e == DecodeError::MalformedInput && final(queue)@ == old(
                queue,
            )@,
        },
{
    match RoriData::from_json(blob) {
        Ok(d) => {
            if str_eq(d.datatype.as_str(), "text") {
                queue.push(d.content);
                proof {
                    assert(queue.deep_view() =~= old(queue).deep_view().push(
                        decode_spec(blob@)->Some_0.content,
                    ));
                }
            }
            Ok(())
        },
        Err(e) => Err(e),
    }
}

} // verus!
