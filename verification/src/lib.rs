//! Relay-protocol core: the wire codec for messages exchanged with a RORI
//! hub, the framed reader that assembles one message per connection, the
//! authorization check for incoming messages, and the endpoint state built
//! from a validated configuration record.

pub mod client;
pub mod data;
pub mod endpoint;
pub mod frame;
pub mod text;
