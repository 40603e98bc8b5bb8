use vstd::prelude::*;

verus! {

/// Largest number of payload bytes read from a single datagram.
pub const BUFFER_SIZE: usize = 4096;

/// Port from which each round-trip send is made.
pub const CLIENT_PORT: u16 = 3000;

/// Length in bytes of an AEAD nonce.
pub const NONCE_LENGTH: usize = 12;

/// Port on which the receiver loop listens.
pub const SERVER_PORT: u16 = 3001;

/// Seconds a sender waits for the echo of its own datagram.
pub const TIMEOUT: u64 = 5;

/// Length in bytes of the symmetric key; the HMAC-SHA-512 key uses all
/// of it, the AEAD key its first half.
pub const KEY_LENGTH: usize = 64;

} // verus!
