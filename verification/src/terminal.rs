use vstd::prelude::*;

verus! {

/// The key codes the editors consume; any other key is ignored.
pub enum KeyCode {
    Char(char),
    Enter,
    Backspace,
    OtherKey,
}

/// The terminal events the sender loop consumes.
pub enum Event {
    Key(KeyCode),
    Resize,
    Mouse,
}

/// Relies on String::push: appends one character.
#[verifier::external_body]
pub(crate) fn string_push(s: &mut String, c: char)
    ensures
        final(s)@ == old(s)@.push(c),
{
    s.push(c);
}

/// Relies on String::pop: removes and returns the last character.
#[verifier::external_body]
pub(crate) fn string_pop(s: &mut String) -> (r: Option<char>)
    ensures
        old(s)@.len() == 0 ==> final(s)@ == old(s)@ && r is None,
        old(s)@.len() > 0 ==> final(s)@ == old(s)@.drop_last() && r == Some::<char>(
            old(s)@.last(),
        ),
{
    s.pop()
}

/// What the key-prompt editor asks of the terminal after one key.
pub struct PromptOutput {
    /// Echo this character at the cursor.
    pub echo: Option<char>,
    /// Clear the current row and reprint the whole line.
    pub redraw: bool,
    /// The line is finished: hand it to the caller.
    pub done: bool,
}

/// One step of the line editor behind the key prompt: a character is
/// appended and echoed, backspace removes the last character and
/// redraws, enter finishes the line, and any other key does nothing.
pub fn prompt_step(line: &mut String, code: KeyCode) -> (r: PromptOutput)
    ensures
        code matches KeyCode::Char(c) ==> final(line)@ == old(line)@.push(c) && r.echo == Some(c)
            && !r.redraw && !r.done,
        code is Enter ==> final(line)@ == old(line)@ && r.echo is None && !r.redraw && r.done,
        code is Backspace ==> final(line)@ == (if old(line)@.len() == 0 {
            old(line)@
        } else {
            old(line)@.drop_last()
        }) && r.echo is None && r.redraw && !r.done,
        code is OtherKey ==> final(line)@ == old(line)@ && r.echo is None && !r.redraw && !r.done,
{
    match code {
        KeyCode::Char(c) => {
            string_push(line, c);
            PromptOutput { echo: Some(c), redraw: false, done: false }
        },
        KeyCode::Enter => PromptOutput { echo: None, redraw: false, done: true },
        KeyCode::Backspace => {
            let _ = string_pop(line);
            PromptOutput { echo: None, redraw: true, done: false }
        },
        KeyCode::OtherKey => PromptOutput { echo: None, redraw: false, done: false },
    }
}

} // verus!
