use chat::channel::LineChannel;
use chat::client::{handle_reply, sender_step, ReplyOutcome, SenderOutput};
use chat::io::Line;
use chat::key::Key;
use chat::message::Message;
use chat::server::{receive_step, ReceiverDecision};
use chat::terminal::{Event, KeyCode};

const WIDTH: u16 = 80;

fn type_line(line: &mut String, channel: &mut LineChannel, text: &str) {
    for c in text.chars() {
        let step = sender_step(line, channel, Event::Key(KeyCode::Char(c)), WIDTH);
        assert_eq!(step.echo, Some(c));
        assert!(!step.quit);
    }
}

fn press_enter(line: &mut String, channel: &mut LineChannel) -> SenderOutput {
    sender_step(line, channel, Event::Key(KeyCode::Enter), WIDTH)
}

#[test]
fn check_channel_latest_wins() {
    let mut channel = LineChannel::new();
    assert!(channel.is_empty());
    assert_eq!(channel.take(), None);

    for n in 0..5u8 {
        channel.publish(Some(Line::new(format!("line {}", n), WIDTH)));
    }
    channel.publish(None);
    channel.publish(Some(Line::new(String::from("latest"), WIDTH)));

    // a single take returns only the last published value
    let taken = channel.take().unwrap().unwrap();
    assert_eq!(taken.content, "latest");
    // and the channel never holds more than that one value
    assert!(channel.is_empty());
    assert_eq!(channel.take(), None);
}

#[test]
fn check_happy_path() {
    // peer A types `hello` and presses enter
    let key = Key::new(None);
    let mut line = String::new();
    let mut channel_a = LineChannel::new();
    type_line(&mut line, &mut channel_a, "hello");
    assert_eq!(line, "hello");
    let step = press_enter(&mut line, &mut channel_a);
    let content = step.send.expect("enter hands the line to the round trip");
    assert_eq!(content, "hello");
    assert_eq!(line, "");
    assert_eq!(channel_a.take(), Some(None));

    // A seals and sends; the wire crosses to B
    let message = Message::new(content, &key);
    let wire = message.serialize();
    let datagram = wire.as_bytes();

    // B's receiver accepts, prints `hello` once and echoes the bytes
    let mut channel_b = LineChannel::new();
    match receive_step(&key, datagram, datagram.len(), &mut channel_b) {
        ReceiverDecision::Accept {
            clear_rows,
            redraw,
            text,
        } => {
            assert_eq!(text, "hello");
            assert_eq!(clear_rows, 0);
            assert!(redraw.is_none());
        }
        _ => panic!("the valid envelope must be accepted"),
    }

    // A reads the echoed bytes back as its confirmation
    match handle_reply(&key, datagram, datagram.len()) {
        ReplyOutcome::Confirm { text } => assert_eq!(text, "hello"),
        _ => panic!("the echo must confirm the send"),
    }
}

#[test]
fn check_timeout_report() {
    // after five seconds without an echo the sender reports 201
    assert_eq!(
        chat::error::throw(201),
        "Network error: timeout, can't connect to peer!"
    );
}

#[test]
fn check_tampered_envelope_is_rejected() {
    let key = Key::new(None);
    let message = Message::new(String::from("x"), &key);
    let mut tampered = Message {
        content: message.content.clone(),
        nonce: message.nonce.clone(),
        signature: message.signature.clone(),
    };
    tampered.content[0] ^= 0x20;
    let wire = tampered.serialize();
    let datagram = wire.as_bytes();

    let mut channel = LineChannel::new();
    channel.publish(Some(Line::new(String::from("typing"), WIDTH)));
    match receive_step(&key, datagram, datagram.len(), &mut channel) {
        ReceiverDecision::Reject { code } => assert_eq!(code, 101),
        _ => panic!("a tampered envelope must be rejected"),
    }
    // the mailbox is untouched on rejection
    assert_eq!(channel.take().unwrap().unwrap().content, "typing");
}

#[test]
fn check_key_mismatch() {
    let key_a = Key::new(None);
    let key_b = Key::new(None);
    let message = Message::new(String::from("hi"), &key_a);
    let wire = message.serialize();
    let datagram = wire.as_bytes();

    // every A-to-B send fails verification on B
    let mut channel_b = LineChannel::new();
    match receive_step(&key_b, datagram, datagram.len(), &mut channel_b) {
        ReceiverDecision::Reject { code } => assert_eq!(code, 101),
        _ => panic!("a foreign key must not verify"),
    }
    // B drops the datagram without an echo, so A times out with 201
    assert_eq!(
        chat::error::throw(201),
        "Network error: timeout, can't connect to peer!"
    );
}

#[test]
fn check_garbage_datagram() {
    let key = Key::new(None);
    let mut channel = LineChannel::new();
    let datagram = b"not an envelope";
    match receive_step(&key, datagram, datagram.len(), &mut channel) {
        ReceiverDecision::Reject { code } => assert_eq!(code, 401),
        _ => panic!("garbage must be rejected"),
    }
    match handle_reply(&key, datagram, datagram.len()) {
        ReplyOutcome::Reject { code } => assert_eq!(code, 401),
        _ => panic!("a garbled echo must be rejected"),
    }
}

#[test]
fn check_interleave_preserves_line() {
    // A has typed `hi`; a valid `yo` arrives from B
    let key = Key::new(None);
    let mut line = String::new();
    let mut channel = LineChannel::new();
    type_line(&mut line, &mut channel, "hi");

    let incoming = Message::new(String::from("yo"), &key);
    let wire = incoming.serialize();
    let datagram = wire.as_bytes();
    match receive_step(&key, datagram, datagram.len(), &mut channel) {
        ReceiverDecision::Accept {
            clear_rows,
            redraw,
            text,
        } => {
            assert_eq!(text, "yo");
            // the in-progress line's single row is cleared and redrawn
            assert_eq!(clear_rows, 1);
            assert_eq!(redraw.unwrap(), "hi");
        }
        _ => panic!("the valid envelope must be accepted"),
    }

    // backspace still deletes `i`, not any displayed character
    let step = sender_step(&mut line, &mut channel, Event::Key(KeyCode::Backspace), WIDTH);
    assert!(step.redraw);
    assert_eq!(step.clear_rows, 1);
    assert_eq!(line, "h");
    // the mailbox now carries the shortened line
    assert_eq!(channel.take().unwrap().unwrap().content, "h");
}

#[test]
fn check_quit_and_help() {
    let mut line = String::new();
    let mut channel = LineChannel::new();

    type_line(&mut line, &mut channel, "/help");
    let step = press_enter(&mut line, &mut channel);
    assert!(step.render_help);
    assert!(step.send.is_none());
    assert!(!step.quit);
    assert_eq!(line, "");

    type_line(&mut line, &mut channel, "/quit");
    let step = press_enter(&mut line, &mut channel);
    assert!(step.quit);
    assert!(step.send.is_none());
    assert!(!step.render_help);
}

#[test]
fn check_resize_is_fatal() {
    let mut line = String::from("typing");
    let mut channel = LineChannel::new();
    let step = sender_step(&mut line, &mut channel, Event::Resize, WIDTH);
    assert!(step.quit);
    assert_eq!(step.report, Some(302));
    assert_eq!(
        chat::error::throw(302),
        "Stdin error: resizing is unsupported!"
    );
    // a mouse event does nothing
    let step = sender_step(&mut line, &mut channel, Event::Mouse, WIDTH);
    assert!(!step.quit);
    assert_eq!(line, "typing");
}

#[test]
fn check_reply_verification() {
    // an echo that verifies under another key is rejected with 101
    let key_a = Key::new(None);
    let key_b = Key::new(None);
    let foreign = Message::new(String::from("spoof"), &key_b);
    let wire = foreign.serialize();
    let datagram = wire.as_bytes();
    match handle_reply(&key_a, datagram, datagram.len()) {
        ReplyOutcome::Reject { code } => assert_eq!(code, 101),
        _ => panic!("a reply under another key must be rejected"),
    }
}
