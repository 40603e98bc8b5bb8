use vstd::prelude::*;

use crate::config::KEY_LENGTH;
use crate::message::Message;
use crate::utils::generate_random_array;

verus! {

/// What `base64::encode` (standard alphabet, padded) makes of a byte
/// sequence.
pub uninterp spec fn b64_of(bytes: Seq<u8>) -> Seq<char>;

/// What `ring::hmac::sign` with HMAC-SHA-512 makes of a key and a
/// message.
pub uninterp spec fn hmac_sha512_of(key: Seq<u8>, data: Seq<u8>) -> Seq<u8>;

/// Whether `c` belongs to the standard base64 alphabet or is the pad.
pub open spec fn spec_is_b64_char(c: char) -> bool {
    (65 <= c as u32 <= 90) || (97 <= c as u32 <= 122) || (48 <= c as u32 <= 57) || c as u32 == 43
        || c as u32 == 47 || c as u32 == 61
}

/// Relies on base64::encode (the STANDARD, padded configuration): the
/// encoding is a function of the bytes alone, four characters for
/// every three bytes rounded up, all drawn from the base64 alphabet
/// and the pad.
#[verifier::external_body]
fn b64_encode(bytes: &[u8]) -> (r: String)
    ensures
        r@ == b64_of(bytes@),
        r@.len() == 4 * ((bytes@.len() + 2) / 3),
        forall|k: int| 0 <= k < r@.len() ==> spec_is_b64_char(#[trigger] r@[k]),
{
    base64::encode(bytes)
}

/// Relies on base64::decode (the STANDARD configuration): decoding
/// inverts the encoding, so a string that is the encoding of some byte
/// sequence decodes to exactly those bytes.
#[verifier::external_body]
fn b64_decode(value: &str) -> (r: Option<Vec<u8>>)
    ensures
        r matches Some(v) ==> forall|b: Seq<u8>| value@ == b64_of(b) ==> v@ == b,
        r is None ==> forall|b: Seq<u8>| value@ != b64_of(b),
{
    base64::decode(value).ok()
}

/// Relies on ring::hmac::sign with ring::hmac::HMAC_SHA512, the key
/// built from the raw key bytes by ring::hmac::Key::new: the tag is a
/// function of key and data alone, 64 bytes long (the SHA-512 output
/// length).
#[verifier::external_body]
fn hmac_sha512(key: &[u8], data: &[u8]) -> (r: Vec<u8>)
    ensures
        r@ == hmac_sha512_of(key@, data@),
        r@.len() == 64,
{
    let hmac_key = ring::hmac::Key::new(ring::hmac::HMAC_SHA512, key);
    ring::hmac::sign(&hmac_key, data).as_ref().to_vec()
}

/// The symmetric key shared by the two peers: 64 random bytes.  All of
/// them key the HMAC; the first half keys the AEAD.
#[derive(Clone)]
pub struct Key {
    pub value: Vec<u8>,
}

/// The first half of the key material, used as the AEAD key.
pub open spec fn spec_half_key(key: Seq<u8>) -> Seq<u8> {
    key.take(32)
}

impl Key {
    /// A key holds exactly `KEY_LENGTH` bytes.
    pub open spec fn wf(&self) -> bool {
        self.value@.len() == KEY_LENGTH
    }

    /// A key from the given 64 bytes, or from the secure random source
    /// when none are given.  A caller that passes `None` should show
    /// the new key's encoding to the user for reuse.
    pub fn new(value: Option<Vec<u8>>) -> (r: Key)
        requires
            value matches Some(v) ==> v@.len() == KEY_LENGTH,
        ensures
            r.wf(),
            value matches Some(v) ==> r.value@ == v@,
    {
        match value {
            Some(v) => Key { value: v },
            None => {
                let arr = generate_random_array();
                let mut v: Vec<u8> = Vec::new();
                let mut i: usize = 0;
                while i < 64
                    invariant
                        i <= 64,
                        v@.len() == i,
                    decreases 64 - i,
                {
                    v.push(arr[i]);
                    i += 1;
                }
                Key { value: v }
            },
        }
    }

    /// Decodes a base64 key string: the first 64 decoded bytes, or the
    /// numeric code 102 when the string does not decode or decodes to
    /// fewer than 64 bytes.
    pub fn base64_decode(value: String) -> (r: Result<Vec<u8>, u16>)
        ensures
            r matches Ok(v) ==> v@.len() == KEY_LENGTH,
            r matches Err(c) ==> c == 102,
            forall|b: Seq<u8>| value@ == b64_of(b) && b.len() >= KEY_LENGTH ==> (r matches Ok(v)
                && v@ == b.take(KEY_LENGTH as int)),
    {
        match b64_decode(value.as_str()) {
            Some(decoded) => {
                if decoded.len() < KEY_LENGTH {
                    Err(102)
                } else {
                    let mut out: Vec<u8> = Vec::new();
                    let mut i: usize = 0;
                    while i < KEY_LENGTH
                        invariant
                            i <= KEY_LENGTH,
                            decoded@.len() >= KEY_LENGTH,
                            out@ =~= decoded@.take(i as int),
                        decreases KEY_LENGTH - i,
                    {
                        out.push(decoded[i]);
                        proof {
                            assert(out@ =~= decoded@.take(i + 1));
                        }
                        i += 1;
                    }
                    Ok(out)
                }
            },
            None => Err(102),
        }
    }

    /// The base64 encoding of the full key material.
    pub fn base64_encode(&self) -> (r: String)
        ensures
            r@ == b64_of(self.value@),
    {
        b64_encode(self.value.as_slice())
    }

    /// The base64-encoded HMAC-SHA-512 tag of `message` under this
    /// key.
    pub fn encode_message_signature(&self, message: Vec<u8>) -> (r: String)
        ensures
            r@ == b64_of(hmac_sha512_of(self.value@, message@)),
            r@.len() == 88,
            forall|k: int| 0 <= k < r@.len() ==> spec_is_b64_char(#[trigger] r@[k]),
    {
        let tag = hmac_sha512(self.value.as_slice(), message.as_slice());
        b64_encode(tag.as_slice())
    }

    /// The first 32 key bytes, which key the AEAD.
    pub fn get_half_key_value(&self) -> (r: Vec<u8>)
        requires
            self.wf(),
        ensures
            r@ == spec_half_key(self.value@),
    {
        let mut half: Vec<u8> = Vec::new();
        let mut i: usize = 0;
        while i < 32
            invariant
                i <= 32,
                self.value@.len() == KEY_LENGTH,
                half@ =~= self.value@.take(i as int),
            decreases 32 - i,
        {
            half.push(self.value[i]);
            proof {
                assert(half@ =~= self.value@.take(i + 1));
            }
            i += 1;
        }
        half
    }

    /// Recomputes the signature of `message.content` and compares it
    /// with the carried one: `Ok` exactly when they agree.
    pub fn verify_message_signature(&self, message: &Message) -> (r: Result<(), String>)
        ensures
            r is Ok <==> message.signature@ == b64_of(
                hmac_sha512_of(self.value@, message.content@),
            ),
            r matches Err(e) ==> e@ == "Invalid message signature!"@,
    {
        let signature = self.encode_message_signature(message.content.clone());
        if signature.eq(&message.signature) {
            Ok(())
        } else {
            Err(String::from_str("Invalid message signature!"))
        }
    }
}

} // verus!
