use vstd::prelude::*;

use crate::channel::LineChannel;
use crate::client::lemma_rx_input;
use crate::key::{b64_of, hmac_sha512_of, spec_half_key, Key};
use crate::message::{seal_of, Message};
use crate::utils::{get_content_from_buffer, lossy_of};
use crate::wire::{wf_model, wire_of, MsgModel};

verus! {

/// The envelope's signature is the one the key computes over its
/// ciphertext.
pub open spec fn spec_sig_ok(key: Seq<u8>, m: MsgModel) -> bool {
    m.signature == b64_of(hmac_sha512_of(key, m.content))
}

/// The envelope's ciphertext is the sealing of the plaintext `p`
/// under the key's AEAD half and the envelope's nonce.
pub open spec fn spec_payload_of(key: Seq<u8>, m: MsgModel, p: Seq<char>) -> bool {
    m.content == seal_of(spec_half_key(key), m.nonce, vstd::utf8::encode_utf8(p))
}

/// What the receiver loop does with one datagram.  Only an accepted
/// datagram is echoed back to its origin as acknowledgement.
pub enum ReceiverDecision {
    /// The datagram is dropped and the numeric code displayed: 401
    /// when it does not parse, 101 when its signature does not
    /// verify.
    Reject { code: u16 },
    /// The display-preservation protocol: clear `clear_rows` rows
    /// upward, print the peer's address marker and `text` on its own
    /// line, then redraw the saved in-progress line, and echo the raw
    /// datagram back.
    Accept { clear_rows: u8, redraw: Option<String>, text: String },
    /// The signature verified but the ciphertext would not open:
    /// fatal in the render path.
    DecryptFailure,
}

/// One step of the receiver task: parse, verify, then take the
/// in-progress line out of the mailbox (putting it back at once so
/// the sender's next redraw still finds it), and decrypt.
///
/// Every datagram that is the wire form of a well-formed envelope
/// signed and sealed under `key` is accepted and its plaintext
/// recovered; a datagram that does not parse is rejected with 401 and
/// one whose signature does not verify with 101, both leaving the
/// mailbox untouched.
pub fn receive_step(
    key: &Key,
    buffer: &[u8],
    number_of_bytes: usize,
    channel: &mut LineChannel,
) -> (r: ReceiverDecision)
    requires
        key.wf(),
        number_of_bytes <= buffer@.len(),
    ensures
        ({
            let data = buffer@.take(number_of_bytes as int);
            &&& (forall|m: MsgModel|
                !(wf_model(m) && vstd::utf8::encode_utf8(lossy_of(data)) == wire_of(m))) ==> (r
                == (ReceiverDecision::Reject { code: 401u16 }) && final(channel).slot() == old(
                channel,
            ).slot())
            &&& forall|m: MsgModel|
                wf_model(m) && data == wire_of(m) && !spec_sig_ok(key.value@, m) ==> (r == (
                ReceiverDecision::Reject { code: 101u16 }) && final(channel).slot() == old(
                    channel,
                ).slot())
            &&& forall|m: MsgModel, p: Seq<char>|
                wf_model(m) && data == wire_of(m) && spec_sig_ok(key.value@, m)
                    && spec_payload_of(key.value@, m, p) && vstd::utf8::encode_utf8(p).len()
                    < crate::message::spec_seal_limit() ==> (
                r matches ReceiverDecision::Accept { clear_rows, redraw, text } && text@ == p && (
                match old(channel).slot() {
                    Some(Some(l)) => clear_rows == l.length && (redraw matches Some(s) && s@
                        == l.content@) && final(channel).slot() == old(channel).slot(),
                    Some(None) => clear_rows == 0 && redraw is None
                        && final(channel).slot() is None,
                    None => clear_rows == 0 && redraw is None && final(channel).slot() is None,
                }))
        }),
{
    proof {
        lemma_rx_input(buffer@.take(number_of_bytes as int));
    }
    let content = get_content_from_buffer(buffer, number_of_bytes);
    match Message::deserialize(content) {
        Err(_) => ReceiverDecision::Reject { code: 401 },
        Ok(msg) => match key.verify_message_signature(&msg) {
            Err(_) => ReceiverDecision::Reject { code: 101 },
            Ok(_) => {
                let taken = channel.take();
                let (clear_rows, redraw) = match taken {
                    Some(Some(l)) => {
                        let rows = l.length;
                        let saved = l.content.clone();
                        channel.publish(Some(l));
                        (rows, Some(saved))
                    },
                    Some(None) => (0u8, None),
                    None => (0u8, None),
                };
                match msg.decrypt(key) {
                    Ok(text) => ReceiverDecision::Accept { clear_rows, redraw, text },
                    Err(_) => ReceiverDecision::DecryptFailure,
                }
            },
        },
    }
}

} // verus!
