//! A broker that pairs exactly two clients into an ephemeral room and relays
//! messages between them: the room registry with its atomic join protocol,
//! the broadcast fan-out with lazy dead-connection cleanup, and the JSON
//! envelopes the broker emits.

pub mod channel;
pub mod json;
pub mod response;
pub mod server;
pub mod fanout;
pub mod text;
