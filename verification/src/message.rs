use vstd::prelude::*;

use aead::{Aead, NewAead};

use crate::config::NONCE_LENGTH;
use crate::error::Error;
use crate::key::{b64_of, hmac_sha512_of, spec_half_key, Key};
use crate::utils::generate_random_array;
use crate::wire::{
    chars_of_bytes, lemma_ascii_utf8, lemma_wire_ascii, parse_wire, render_wire, wf_model,
    wire_of, MsgModel,
};

verus! {

/// What ChaCha20-Poly1305 sealing makes of a 32-byte key, a 12-byte
/// nonce and a plaintext: the ciphertext with its 16-byte tag
/// appended.
pub uninterp spec fn seal_of(key: Seq<u8>, nonce: Seq<u8>, plaintext: Seq<u8>) -> Seq<u8>;

/// Plaintexts shorter than this many bytes are always accepted by the
/// cipher, whose true limit lies far higher.
pub open spec fn spec_seal_limit() -> int {
    0x1_0000_0000
}

/// Relies on chacha20poly1305::ChaCha20Poly1305: aead::Aead::encrypt
/// on the cipher that aead::NewAead::new builds from the 32-byte key.
/// The ciphertext is the plaintext's encryption with the 16-byte
/// Poly1305 tag appended, a function of key, nonce and plaintext
/// alone; the only failure is a plaintext beyond the cipher's limit
/// of nearly 2^38 bytes.
#[verifier::external_body]
fn aead_seal(key32: &[u8], nonce: &[u8], plaintext: &[u8]) -> (r: Option<Vec<u8>>)
    requires
        key32@.len() == 32,
        nonce@.len() == NONCE_LENGTH,
    ensures
        r matches Some(c) ==> c@ == seal_of(key32@, nonce@, plaintext@) && c@.len() == plaintext@.len() + 16,
        r is None ==> plaintext@.len() >= spec_seal_limit(),
{
    let key = aead::generic_array::GenericArray::from_slice(key32);
    let cipher = chacha20poly1305::ChaCha20Poly1305::new(key);
    let n = aead::generic_array::GenericArray::from_slice(nonce);
    cipher.encrypt(n, plaintext).ok()
}

/// Relies on chacha20poly1305::ChaCha20Poly1305: aead::Aead::decrypt.
/// Decryption inverts encryption under the same key and nonce, and the
/// Poly1305 tag it checks is a function of key, nonce and ciphertext,
/// so a buffer it accepts is exactly the sealing of the one plaintext
/// it returns.
#[verifier::external_body]
fn aead_open(key32: &[u8], nonce: &[u8], ciphertext: &[u8]) -> (r: Option<Vec<u8>>)
    requires
        key32@.len() == 32,
        nonce@.len() == NONCE_LENGTH,
    ensures
        r matches Some(p) ==> ciphertext@ == seal_of(key32@, nonce@, p@) && p@.len() + 16
            == ciphertext@.len(),
        r matches Some(p) ==> forall|q: Seq<u8>|
            ciphertext@ == seal_of(key32@, nonce@, q) ==> p@ == q,
        r is None ==> forall|q: Seq<u8>|
            ciphertext@ != seal_of(key32@, nonce@, q) || q.len() >= spec_seal_limit(),
{
    let key = aead::generic_array::GenericArray::from_slice(key32);
    let cipher = chacha20poly1305::ChaCha20Poly1305::new(key);
    let n = aead::generic_array::GenericArray::from_slice(nonce);
    cipher.decrypt(n, ciphertext).ok()
}

/// Relies on core::str::from_utf8 (with the borrowed result copied to
/// an owned string): it succeeds exactly on valid UTF-8 and returns
/// its decoding.
#[verifier::external_body]
fn bytes_to_string(bytes: &[u8]) -> (r: Option<String>)
    ensures
        r matches Some(s) ==> vstd::utf8::valid_utf8(bytes@) && s@ == vstd::utf8::decode_utf8(
            bytes@,
        ),
        r is None ==> !vstd::utf8::valid_utf8(bytes@),
{
    core::str::from_utf8(bytes).ok().map(|s| s.to_string())
}

/// A message envelope: the AEAD ciphertext, the fresh nonce it was
/// sealed with, and the base64 HMAC-SHA-512 tag of the ciphertext.
#[derive(Debug, PartialEq)]
pub struct Message {
    pub content: Vec<u8>,
    pub nonce: Vec<u8>,
    pub signature: String,
}

impl View for Message {
    type V = MsgModel;

    open spec fn view(&self) -> MsgModel {
        MsgModel { content: self.content@, nonce: self.nonce@, signature: self.signature@ }
    }
}

impl Message {
    /// A well-formed envelope: twelve nonce bytes and a base64
    /// signature.
    pub open spec fn wf(&self) -> bool {
        wf_model(self@)
    }

    /// Seals `content` under a fresh random nonce and signs the
    /// ciphertext: the envelope carries the sealing of the plaintext's
    /// UTF-8 bytes and the base64 HMAC of that ciphertext.
    pub fn new(content: String, key: &Key) -> (r: Message)
        requires
            key.wf(),
            vstd::utf8::encode_utf8(content@).len() < spec_seal_limit(),
        ensures
            r.wf(),
            r.nonce@.len() == NONCE_LENGTH,
            r.content@ == seal_of(
                spec_half_key(key.value@),
                r.nonce@,
                vstd::utf8::encode_utf8(content@),
            ),
            r.content@.len() == vstd::utf8::encode_utf8(content@).len() + 16,
            r.signature@ == b64_of(hmac_sha512_of(key.value@, r.content@)),
    {
        let arr = generate_random_array();
        let mut nonce: Vec<u8> = Vec::new();
        let mut i: usize = 0;
        while i < NONCE_LENGTH
            invariant
                i <= NONCE_LENGTH,
                nonce@.len() == i,
            decreases NONCE_LENGTH - i,
        {
            nonce.push(arr[i]);
            i += 1;
        }
        let half = key.get_half_key_value();
        let plaintext = content.as_str().as_bytes_vec();
        let sealed = aead_seal(half.as_slice(), nonce.as_slice(), plaintext.as_slice());
        match sealed {
            Some(ciphertext) => {
                let signature = key.encode_message_signature(ciphertext.clone());
                Message { content: ciphertext, nonce, signature }
            },
            None => vstd::pervasive::unreached(),
        }
    }

    /// Opens the envelope with the AEAD key half and reads the
    /// plaintext as UTF-8.  Succeeds on every envelope sealed under
    /// the same key and nonce; fails when the tag check fails or the
    /// sealed bytes are not valid UTF-8.
    pub fn decrypt(&self, key: &Key) -> (r: Result<String, Error>)
        requires
            key.wf(),
            self.nonce@.len() == NONCE_LENGTH,
        ensures
            r matches Ok(s) ==> self.content@ == seal_of(
                spec_half_key(key.value@),
                self.nonce@,
                vstd::utf8::encode_utf8(s@),
            ),
            forall|p: Seq<char>|
                self.content@ == seal_of(
                    spec_half_key(key.value@),
                    self.nonce@,
                    vstd::utf8::encode_utf8(p),
                ) && vstd::utf8::encode_utf8(p).len() < spec_seal_limit() ==> (r matches Ok(s)
                && s@ == p),
    {
        let half = key.get_half_key_value();
        let opened = aead_open(half.as_slice(), self.nonce.as_slice(), self.content.as_slice());
        match opened {
            Some(plaintext) => {
                match bytes_to_string(plaintext.as_slice()) {
                    Some(s) => {
                        proof {
                            broadcast use vstd::utf8::encode_utf8_valid_utf8;
                            broadcast use vstd::utf8::decode_utf8_encode_utf8;
                            broadcast use vstd::utf8::encode_utf8_decode_utf8;

                        }
                        Ok(s)
                    },
                    None => {
                        proof {
                            broadcast use vstd::utf8::encode_utf8_valid_utf8;

                        }
                        Err(Error::Crypto(String::from_str("decryption failure")))
                    },
                }
            },
            None => Err(Error::Crypto(String::from_str("decryption failure"))),
        }
    }

    /// The JSON wire text of the envelope:
    /// `{"content":[...],"nonce":[...],"signature":"..."}`.
    pub fn serialize(&self) -> (r: String)
        requires
            self.wf(),
        ensures
            r@ == chars_of_bytes(wire_of(self@)),
            vstd::utf8::encode_utf8(r@) == wire_of(self@),
    {
        let sig_bytes = self.signature.as_str().as_bytes_vec();
        proof {
            assert forall|k: int|
                0 <= k < self.signature@.len() implies crate::key::spec_is_b64_char(
                #[trigger] self.signature@[k],
            ) by {
                assert(crate::key::spec_is_b64_char(self@.signature[k]));
            }
            lemma_sig_bytes(self.signature@);
            assert(crate::wire::bytes_of_chars(self.signature@) =~= sig_bytes@);
        }
        let bytes = render_wire(&self.content, &self.nonce, &sig_bytes);
        proof {
            lemma_wire_ascii(self@);
            lemma_ascii_utf8(bytes@);
        }
        match bytes_to_string(bytes.as_slice()) {
            Some(s) => s,
            None => vstd::pervasive::unreached(),
        }
    }

    /// Parses the JSON wire text of an envelope.  Every wire rendering
    /// of a well-formed envelope is accepted and yields exactly that
    /// envelope; anything else is the deserialize error, numeric code
    /// 401.
    pub fn deserialize(message: String) -> (r: Result<Message, Error>)
        ensures
            r matches Ok(msg) ==> msg.wf() && vstd::utf8::encode_utf8(message@) == wire_of(msg@),
            forall|m: MsgModel|
                wf_model(m) && vstd::utf8::encode_utf8(message@) == wire_of(m) ==> (
                r matches Ok(msg) && msg@ == m),
            r matches Err(e) ==> crate::error::spec_error_text(e) == crate::error::spec_code_text(
                401,
            ),
            (forall|m: MsgModel| !(wf_model(m) && vstd::utf8::encode_utf8(message@) == wire_of(m)))
                <==> r is Err,
    {
        let bytes = message.as_str().as_bytes_vec();
        match parse_wire(&bytes) {
            Some(parts) => {
                let (content, nonce, sig_bytes) = parts;
                if nonce.len() != crate::config::NONCE_LENGTH {
                    Err(crate::error::_throw(401))
                } else {
                    proof {
                        assert forall|k: int| 0 <= k < sig_bytes@.len() implies sig_bytes@[k]
                            < 128 by {
                            let c = chars_of_bytes(sig_bytes@)[k];
                            assert(crate::key::spec_is_b64_char(c));
                        }
                        lemma_ascii_utf8(sig_bytes@);
                    }
                    match bytes_to_string(sig_bytes.as_slice()) {
                        Some(signature) => Ok(Message { content, nonce, signature }),
                        None => vstd::pervasive::unreached(),
                    }
                }
            },
            None => Err(crate::error::_throw(401)),
        }
    }
}

/// The UTF-8 bytes of a base64 character sequence are the characters
/// themselves, byte for byte, and turning them back into characters
/// is the identity.
proof fn lemma_sig_bytes(s: Seq<char>)
    requires
        forall|k: int| 0 <= k < s.len() ==> crate::key::spec_is_b64_char(#[trigger] s[k]),
    ensures
        vstd::utf8::encode_utf8(s) == crate::wire::bytes_of_chars(s),
        chars_of_bytes(crate::wire::bytes_of_chars(s)) == s,
{
    crate::wire::lemma_b64_chars_to_bytes(s);
    let bs = crate::wire::bytes_of_chars(s);
    assert forall|k: int| 0 <= k < bs.len() implies bs[k] < 128 by {
        assert(crate::wire::spec_is_b64_byte(bs[k]));
    }
    lemma_ascii_utf8(bs);
    assert(vstd::utf8::encode_utf8(s) == vstd::utf8::encode_utf8(chars_of_bytes(bs)));
}

} // verus!
