//! Two-party symmetric-key encrypted chat: message envelopes
//! (ChaCha20-Poly1305 plus HMAC-SHA-512), the JSON wire format, the
//! terminal line model, the capacity-one mailbox between the two peer
//! tasks, and the decision logic of the sender and receiver loops.

pub mod channel;
pub mod client;
pub mod config;
pub mod error;
pub mod help;
pub mod io;
pub mod key;
pub mod message;
pub mod numeric;
pub mod peers;
pub mod screen;
pub mod server;
pub mod terminal;
pub mod utils;
pub mod wire;
