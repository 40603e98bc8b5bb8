use vstd::prelude::*;

use crate::channel::LineChannel;
use crate::io::{spec_rows_u8, Line};
use crate::key::{b64_of, hmac_sha512_of, spec_half_key, Key};
use crate::message::{seal_of, Message};
use crate::terminal::{string_pop, string_push, Event, KeyCode};
use crate::wire::{wf_model, wire_of, MsgModel};

verus! {

/// What the sender loop asks of the terminal and the network after
/// one event.  The caller performs the parts in this order: clear
/// `clear_rows` rows upward, redraw the line if asked, echo the
/// character if asked, render the help listing if asked, run the send
/// round trip if asked, display the report if asked, and stop the
/// loop after leaving the alternate screen when `quit` is set.
pub struct SenderOutput {
    pub echo: Option<char>,
    pub clear_rows: u8,
    pub redraw: bool,
    pub render_help: bool,
    pub send: Option<String>,
    pub report: Option<u16>,
    pub quit: bool,
}

/// One step of the sender task: edits the line accumulator, keeps the
/// mailbox holding the latest state of the in-progress line, and says
/// what to do next.
///
/// A character is appended, published and echoed.  Backspace removes
/// the last character, publishes the shorter line, clears the rows the
/// old line occupied and redraws.  Enter renders the help listing for
/// `/help`, quits for `/quit`, and otherwise clears the line's rows,
/// publishes "no line in progress" and hands the line to the send
/// round trip.  Resizing is unsupported and fatal, numeric code 302.
pub fn sender_step(line: &mut String, channel: &mut LineChannel, event: Event, width: u16) -> (r:
    SenderOutput)
    requires
        width >= 1,
    ensures
        event is Mouse || event == Event::Key(KeyCode::OtherKey) ==> final(line)@ == old(line)@
            && final(channel).slot() == old(channel).slot() && r.echo is None && r.clear_rows == 0
            && !r.redraw && !r.render_help && r.send is None && r.report is None && !r.quit,
        event is Resize ==> final(line)@ == old(line)@ && final(channel).slot() == old(
            channel,
        ).slot() && r.echo is None && r.clear_rows == 0 && !r.redraw && !r.render_help
            && r.send is None && r.report == Some(302u16) && r.quit,
        event matches Event::Key(KeyCode::Char(c)) ==> final(line)@ == old(line)@.push(c) && (
        final(channel).slot() matches Some(Some(l)) && l.content@ == final(line)@ && l.length
            == spec_rows_u8(final(line)@.len() as nat, width as nat)) && r.echo == Some(c)
            && r.clear_rows == 0 && !r.redraw && !r.render_help && r.send is None
            && r.report is None && !r.quit,
        event == Event::Key(KeyCode::Backspace) ==> final(line)@ == (if old(line)@.len() == 0 {
            old(line)@
        } else {
            old(line)@.drop_last()
        }) && (final(channel).slot() matches Some(Some(l)) && l.content@ == final(line)@
            && l.length == spec_rows_u8(final(line)@.len() as nat, width as nat)) && r.echo is None
            && r.clear_rows == spec_rows_u8(old(line)@.len() as nat, width as nat) && r.redraw
            && !r.render_help && r.send is None && r.report is None && !r.quit,
        event == Event::Key(KeyCode::Enter) && old(line)@ == "/help"@ ==> final(line)@
            == Seq::<char>::empty() && final(channel).slot() == old(channel).slot()
            && r.echo is None && r.clear_rows == 0 && !r.redraw && r.render_help && r.send is None
            && r.report is None && !r.quit,
        event == Event::Key(KeyCode::Enter) && old(line)@ == "/quit"@ ==> final(line)@ == old(
            line,
        )@ && final(channel).slot() == old(channel).slot() && r.echo is None && r.clear_rows == 0
            && !r.redraw && !r.render_help && r.send is None && r.report is None && r.quit,
        event == Event::Key(KeyCode::Enter) && old(line)@ != "/help"@ && old(line)@ != "/quit"@
            ==> final(line)@ == Seq::<char>::empty() && final(channel).slot() == Some(
            Option::<Line>::None,
        ) && r.echo is None && r.clear_rows == spec_rows_u8(old(line)@.len() as nat, width as nat)
            && !r.redraw && !r.render_help && (r.send matches Some(s) && s@ == old(line)@)
            && r.report is None && !r.quit,
{
    match event {
        Event::Mouse => SenderOutput {
            echo: None,
            clear_rows: 0,
            redraw: false,
            render_help: false,
            send: None,
            report: None,
            quit: false,
        },
        Event::Resize => SenderOutput {
            echo: None,
            clear_rows: 0,
            redraw: false,
            render_help: false,
            send: None,
            report: Some(302),
            quit: true,
        },
        Event::Key(code) => match code {
            KeyCode::OtherKey => SenderOutput {
                echo: None,
                clear_rows: 0,
                redraw: false,
                render_help: false,
                send: None,
                report: None,
                quit: false,
            },
            KeyCode::Char(c) => {
                string_push(line, c);
                channel.publish(Some(Line::new(line.clone(), width)));
                SenderOutput {
                    echo: Some(c),
                    clear_rows: 0,
                    redraw: false,
                    render_help: false,
                    send: None,
                    report: None,
                    quit: false,
                }
            },
            KeyCode::Backspace => {
                let old_rows = Line::get_content_lines_length(line, width);
                let _ = string_pop(line);
                channel.publish(Some(Line::new(line.clone(), width)));
                SenderOutput {
                    echo: None,
                    clear_rows: old_rows,
                    redraw: true,
                    render_help: false,
                    send: None,
                    report: None,
                    quit: false,
                }
            },
            KeyCode::Enter => {
                proof {
                    reveal_strlit("/help");
                    reveal_strlit("/quit");
                    assert("/help"@[1] == 'h' && "/quit"@[1] == 'q');
                    assert("/help"@ != "/quit"@);
                }
                if (&*line).eq(&String::from_str("/help")) {
                    *line = String::new();
                    SenderOutput {
                        echo: None,
                        clear_rows: 0,
                        redraw: false,
                        render_help: true,
                        send: None,
                        report: None,
                        quit: false,
                    }
                } else if (&*line).eq(&String::from_str("/quit")) {
                    SenderOutput {
                        echo: None,
                        clear_rows: 0,
                        redraw: false,
                        render_help: false,
                        send: None,
                        report: None,
                        quit: true,
                    }
                } else {
                    let rows = Line::get_content_lines_length(line, width);
                    channel.publish(None);
                    let mut content = String::new();
                    core::mem::swap(line, &mut content);
                    SenderOutput {
                        echo: None,
                        clear_rows: rows,
                        redraw: false,
                        render_help: false,
                        send: Some(content),
                        report: None,
                        quit: false,
                    }
                }
            },
        },
    }
}

/// What the sender makes of the bytes echoed back after a send.
pub enum ReplyOutcome {
    /// The reply is dropped and the numeric code displayed: 401 when
    /// it does not parse, 101 when its signature does not verify.
    Reject { code: u16 },
    /// The reply is the confirmation: its plaintext is printed on its
    /// own line.
    Confirm { text: String },
    /// The reply verified but would not decrypt: fatal in the render
    /// path.
    DecryptFailure,
}

/// Reads the echoed reply of a send round trip: parse, verify, then
/// decrypt — a reply is accepted as confirmation only if it still
/// verifies under the local key.
pub fn handle_reply(key: &Key, buffer: &[u8], number_of_bytes: usize) -> (r: ReplyOutcome)
    requires
        key.wf(),
        number_of_bytes <= buffer@.len(),
    ensures
        ({
            let data = buffer@.take(number_of_bytes as int);
            &&& (forall|m: MsgModel|
                !(wf_model(m) && vstd::utf8::encode_utf8(crate::utils::lossy_of(data)) == wire_of(
                    m,
                ))) ==> r == (ReplyOutcome::Reject { code: 401u16 })
            &&& forall|m: MsgModel|
                wf_model(m) && data == wire_of(m) && m.signature != b64_of(
                    hmac_sha512_of(key.value@, m.content),
                ) ==> r == (ReplyOutcome::Reject { code: 101u16 })
            &&& forall|m: MsgModel, p: Seq<char>|
                wf_model(m) && data == wire_of(m) && m.signature == b64_of(
                    hmac_sha512_of(key.value@, m.content),
                ) && m.content == seal_of(
                    spec_half_key(key.value@),
                    m.nonce,
                    vstd::utf8::encode_utf8(p),
                ) && vstd::utf8::encode_utf8(p).len() < crate::message::spec_seal_limit() ==> (
                r matches ReplyOutcome::Confirm { text } && text@ == p)
        }),
{
    proof {
        lemma_rx_input(buffer@.take(number_of_bytes as int));
    }
    let content = crate::utils::get_content_from_buffer(buffer, number_of_bytes);
    match Message::deserialize(content) {
        Err(_) => ReplyOutcome::Reject { code: 401 },
        Ok(msg) => match key.verify_message_signature(&msg) {
            Err(_) => ReplyOutcome::Reject { code: 101 },
            Ok(_) => match msg.decrypt(key) {
                Ok(text) => ReplyOutcome::Confirm { text },
                Err(_) => ReplyOutcome::DecryptFailure,
            },
        },
    }
}

/// A datagram that is exactly the wire form of a well-formed envelope
/// reads back as itself through the lossy buffer conversion.
pub proof fn lemma_rx_input(data: Seq<u8>)
    ensures
        forall|m: MsgModel|
            wf_model(m) && data == wire_of(m) ==> vstd::utf8::valid_utf8(data)
                && vstd::utf8::encode_utf8(#[trigger] vstd::utf8::decode_utf8(data)) == data,
{
    assert forall|m: MsgModel|
        wf_model(m) && data == wire_of(m) implies vstd::utf8::valid_utf8(data)
        && vstd::utf8::encode_utf8(#[trigger] vstd::utf8::decode_utf8(data)) == data by {
        crate::wire::lemma_wire_ascii(m);
        crate::wire::lemma_ascii_utf8(data);
    }
}

} // verus!
