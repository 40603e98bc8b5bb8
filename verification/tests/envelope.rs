use std::collections::HashSet;

use chat::key::Key;
use chat::message::Message;

#[test]
fn test_key() {
    let key = Key::new(None);
    let encoded_key = key.base64_encode();

    assert_eq!(
        encoded_key.len(),
        (4.0 * (ring::digest::SHA512_OUTPUT_LEN as f64 / 3.0).ceil()) as usize
    );

    let decoded_key = Key::base64_decode(encoded_key).unwrap();
    let half_decoded_key = decoded_key[..32].to_vec();

    assert_eq!(half_decoded_key, key.get_half_key_value());
}

#[test]
fn test_message() {
    let key = Key::new(None);
    let message_a = Message::new(String::from("foo"), &key);
    let message_b = Message::new(String::from("foo"), &key);

    // Both messages' contents should be different since they are based on different
    // nonce!
    assert_ne!(message_a.content, message_b.content);
    // They should have the same length.
    assert_eq!(message_a.content.len(), message_b.content.len());
    // The nonces should be different too!
    assert_ne!(message_a.nonce, message_b.nonce);
    // They should have the same length.
    assert_eq!(message_a.nonce.len(), message_b.nonce.len());
    // The signatures should also be different!
    assert_ne!(message_a.signature, message_b.signature);
    // They should have the same length.
    assert_eq!(message_a.signature.len(), message_b.signature.len());

    // Decrypting a message should returns its content.
    assert_eq!(message_a.decrypt(&key).unwrap(), String::from("foo"));

    // Serializing and deserializaing a message should not alter it.
    assert_eq!(
        Message::deserialize(message_a.serialize()).unwrap(),
        message_a
    );
}

#[test]
fn check_key_round_trip() {
    let key = Key::new(None);
    let decoded = Key::base64_decode(key.base64_encode()).unwrap();
    assert_eq!(decoded, key.value);

    let rebuilt = Key::new(Some(decoded));
    assert_eq!(rebuilt.value, key.value);
}

#[test]
fn check_key_decode_rejections() {
    // not base64 at all
    assert_eq!(Key::base64_decode(String::from("!!!not base64!!!")), Err(102));
    // decodes, but to fewer than 64 bytes
    assert_eq!(Key::base64_decode(String::from("AAAA")), Err(102));
    // empty input
    assert_eq!(Key::base64_decode(String::new()), Err(102));
}

#[test]
fn check_envelope_round_trip() {
    let key = Key::new(None);
    let text = String::from("héllo ☃ peer");
    let message = Message::new(text.clone(), &key);

    assert!(key.verify_message_signature(&message).is_ok());

    let wire = message.serialize();
    let received = Message::deserialize(wire).unwrap();
    assert_eq!(received, message);
    assert_eq!(received.decrypt(&key).unwrap(), text);
}

#[test]
fn check_nonce_uniqueness() {
    let key = Key::new(None);
    let text = String::from("same plaintext");
    let mut nonces: HashSet<Vec<u8>> = HashSet::new();
    let mut contents: HashSet<Vec<u8>> = HashSet::new();
    let mut signatures: HashSet<String> = HashSet::new();
    let mut content_length = None;

    for _ in 0..10_000 {
        let message = Message::new(text.clone(), &key);
        match content_length {
            None => content_length = Some(message.content.len()),
            Some(len) => assert_eq!(message.content.len(), len),
        }
        assert!(nonces.insert(message.nonce.clone()));
        assert!(contents.insert(message.content.clone()));
        assert!(signatures.insert(message.signature.clone()));
    }
}

#[test]
fn check_mac_rejection_on_bit_flips() {
    let key = Key::new(None);
    let message = Message::new(String::from("attack at dawn"), &key);

    for index in 0..message.content.len() {
        for bit in 0..8u8 {
            let mut tampered_content = message.content.clone();
            tampered_content[index] ^= 1 << bit;
            let tampered = Message {
                content: tampered_content,
                nonce: message.nonce.clone(),
                signature: message.signature.clone(),
            };
            assert!(key.verify_message_signature(&tampered).is_err());
        }
    }
}

#[test]
fn check_wrong_key_rejection() {
    let key = Key::new(None);
    let other = Key::new(None);
    assert_ne!(key.value, other.value);

    let message = Message::new(String::from("secret"), &key);
    assert!(other.verify_message_signature(&message).is_err());
    assert!(key.verify_message_signature(&message).is_ok());
    assert!(message.decrypt(&other).is_err());
}

#[test]
fn check_wire_format_exact() {
    let message = Message {
        content: vec![0, 1, 2, 10, 100, 255],
        nonce: vec![0, 0, 0, 0, 0, 0, 0, 0, 0, 0, 0, 9],
        signature: String::from("c2ln"),
    };
    assert_eq!(
        message.serialize(),
        "{\"content\":[0,1,2,10,100,255],\"nonce\":[0,0,0,0,0,0,0,0,0,0,0,9],\"signature\":\"c2ln\"}"
    );
}

#[test]
fn check_wire_parse_exact() {
    let wire = String::from(
        "{\"content\":[7,200],\"nonce\":[1,2,3,4,5,6,7,8,9,10,11,12],\"signature\":\"QUJD\"}",
    );
    let message = Message::deserialize(wire).unwrap();
    assert_eq!(message.content, vec![7, 200]);
    assert_eq!(
        message.nonce,
        vec![1, 2, 3, 4, 5, 6, 7, 8, 9, 10, 11, 12]
    );
    assert_eq!(message.signature, "QUJD");

    // an empty ciphertext list still parses
    let empty = Message::deserialize(String::from(
        "{\"content\":[],\"nonce\":[1,2,3,4,5,6,7,8,9,10,11,12],\"signature\":\"\"}",
    ))
    .unwrap();
    assert_eq!(empty.content, Vec::<u8>::new());
    assert_eq!(empty.signature, "");
}

#[test]
fn check_wire_parse_rejections() {
    let reject = |s: &str| {
        assert_eq!(
            Message::deserialize(String::from(s)).unwrap_err().to_string(),
            "Message error: can't deserialize message!"
        );
    };
    // not JSON at all
    reject("hello");
    reject("");
    // trailing bytes after the closing brace
    reject("{\"content\":[],\"nonce\":[1,2,3,4,5,6,7,8,9,10,11,12],\"signature\":\"\"}x");
    // a nonce that is not twelve bytes long
    reject("{\"content\":[],\"nonce\":[1,2,3],\"signature\":\"\"}");
    // a list element above a byte
    reject("{\"content\":[256],\"nonce\":[1,2,3,4,5,6,7,8,9,10,11,12],\"signature\":\"\"}");
    // a leading zero is not the canonical rendering
    reject("{\"content\":[01],\"nonce\":[1,2,3,4,5,6,7,8,9,10,11,12],\"signature\":\"\"}");
    // a character outside the base64 alphabet inside the signature
    reject("{\"content\":[],\"nonce\":[1,2,3,4,5,6,7,8,9,10,11,12],\"signature\":\"a b\"}");
    // the fields in another order
    reject("{\"nonce\":[1,2,3,4,5,6,7,8,9,10,11,12],\"content\":[],\"signature\":\"\"}");
}

#[test]
fn check_signature_is_not_the_content() {
    // the signature and the encoding both differ from the raw bytes,
    // and the ciphertext differs from the plaintext
    let key = Key::new(None);
    let text = String::from("plain");
    let message = Message::new(text.clone(), &key);
    assert_eq!(message.content.len(), text.len() + 16);
    assert_ne!(&message.content[..text.len()], text.as_bytes());
    assert_ne!(key.base64_encode().as_bytes(), &key.value[..]);
    assert_ne!(message.signature.as_bytes(), &message.content[..]);
}
