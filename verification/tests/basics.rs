use chat::error::{throw, _throw};
use chat::help::render;
use chat::io::Line;
use chat::peers::{socket_address, u16_to_string, Peers};
use chat::terminal::{prompt_step, KeyCode};
use chat::utils::{generate_random_array, get_content_from_buffer};

#[test]
fn test_error() {
    assert_eq!(
        _throw(101).to_string(),
        String::from("Crypto error: can't verify message signature!")
    );

    assert_eq!(_throw(999).to_string(), String::from("Unknown error!"));
}

#[test]
fn check_content_from_buffer() {
    let cat = "cat";
    let a: &[u8] = cat.as_ref();

    assert_eq!(get_content_from_buffer(&a[..], 3), cat);
}

#[test]
fn check_random_array() {
    let a = generate_random_array();
    let b = generate_random_array();

    assert_ne!(&a[..], &b[..]);
    assert_eq!(a.len(), ring::digest::SHA512_OUTPUT_LEN);
}

#[test]
fn check_peers() {
    let local_peer = String::from("2001:3984:3989::10");
    let remote_peer = String::from("2001:3984:3989::20");
    let local_peer_clone = local_peer.clone();
    let remote_peer_clone = remote_peer.clone();
    let peers = Peers::new(local_peer, remote_peer);

    assert_eq!(
        peers,
        Peers {
            local: local_peer_clone,
            remote: remote_peer_clone
        }
    );
}

#[test]
fn check_every_error_code() {
    assert_eq!(throw(101), "Crypto error: can't verify message signature!");
    assert_eq!(throw(102), "Crypto error: can't decode key!");
    assert_eq!(throw(201), "Network error: timeout, can't connect to peer!");
    assert_eq!(throw(202), "Network error: message not sent!");
    assert_eq!(throw(301), "Stdin error: can't read from command line!");
    assert_eq!(throw(302), "Stdin error: resizing is unsupported!");
    assert_eq!(throw(401), "Message error: can't deserialize message!");
    assert_eq!(throw(0), "Unknown error!");
    assert_eq!(throw(500), "Unknown error!");
}

#[test]
fn check_line_rows() {
    assert_eq!(Line::get_content_lines_length(&String::new(), 80), 0);
    assert_eq!(Line::get_content_lines_length(&"a".repeat(1), 80), 1);
    assert_eq!(Line::get_content_lines_length(&"a".repeat(80), 80), 1);
    assert_eq!(Line::get_content_lines_length(&"a".repeat(81), 80), 2);
    assert_eq!(Line::get_content_lines_length(&"a".repeat(160), 80), 2);
    assert_eq!(Line::get_content_lines_length(&"a".repeat(161), 80), 3);
    // the stored count saturates rather than wrapping
    assert_eq!(Line::get_content_lines_length(&"a".repeat(600), 1), 255);

    let line = Line::new(String::from("hello"), 80);
    assert_eq!(line.content, "hello");
    assert_eq!(line.length, 1);
}

#[test]
fn check_rows_monotonic_samples() {
    let w = 7u16;
    let mut previous = 0u8;
    for n in 0..100usize {
        let rows = Line::get_content_lines_length(&"x".repeat(n), w);
        assert!(rows >= previous);
        previous = rows;
    }
}

#[test]
fn check_help_listing() {
    let commands = render();
    assert_eq!(commands.len(), 2);
    assert_eq!(commands[0].0, "help");
    assert_eq!(commands[0].1, "display help");
    assert_eq!(commands[1].0, "quit");
    assert_eq!(commands[1].1, "quit application");
}

#[test]
fn check_prompt_editor() {
    let mut line = String::new();
    let step = prompt_step(&mut line, KeyCode::Char('a'));
    assert_eq!(step.echo, Some('a'));
    assert!(!step.done);
    prompt_step(&mut line, KeyCode::Char('b'));
    assert_eq!(line, "ab");
    let step = prompt_step(&mut line, KeyCode::Backspace);
    assert!(step.redraw);
    assert_eq!(line, "a");
    let step = prompt_step(&mut line, KeyCode::OtherKey);
    assert!(!step.done);
    assert_eq!(line, "a");
    let step = prompt_step(&mut line, KeyCode::Enter);
    assert!(step.done);
    assert_eq!(line, "a");
    // backspace on an empty line leaves it empty
    let mut empty = String::new();
    prompt_step(&mut empty, KeyCode::Backspace);
    assert_eq!(empty, "");
}

#[test]
fn check_socket_address() {
    assert_eq!(u16_to_string(0), "0");
    assert_eq!(u16_to_string(7), "7");
    assert_eq!(u16_to_string(3000), "3000");
    assert_eq!(u16_to_string(65535), "65535");
    assert_eq!(socket_address("127.0.0.1", 3001), "127.0.0.1:3001");
    assert_eq!(socket_address("::1", 3000), "::1:3000");
}

#[test]
fn check_lossy_buffer_replaces_invalid_bytes() {
    // an invalid UTF-8 byte does not come back unchanged
    let bytes: [u8; 3] = [99, 255, 116];
    let text = get_content_from_buffer(&bytes[..], 3);
    assert_eq!(text, "c\u{fffd}t");
    // only the first `number_of_bytes` bytes are read
    let head = get_content_from_buffer(&bytes[..], 1);
    assert_eq!(head, "c");
}
