use vstd::prelude::*;

use crate::io::spec_rows;

verus! {

/// The rows a line occupies on the terminal: full-width slices,
/// oldest first, the remainder last.
pub open spec fn spec_wrap(s: Seq<char>, width: nat) -> Seq<Seq<char>>
    recommends
        width > 0,
    decreases s.len(),
        when width > 0
{
    if s.len() == 0 {
        Seq::empty()
    } else if s.len() <= width {
        seq![s]
    } else {
        seq![s.take(width as int)] + spec_wrap(s.skip(width as int), width)
    }
}

/// A wrapped line occupies exactly the rows the line model counts.
pub proof fn lemma_wrap_rows(s: Seq<char>, width: nat)
    requires
        width > 0,
    ensures
        spec_wrap(s, width).len() == spec_rows(s.len(), width),
    decreases s.len(),
{
    if s.len() == 0 {
    } else if s.len() <= width {
        crate::io::lemma_rows_monotonic(s.len(), s.len(), width);
    } else {
        lemma_wrap_rows(s.skip(width as int), width);
        let rest: int = s.len() - width;
        vstd::arithmetic::div_mod::lemma_div_plus_one((s.len() - 1) as int, width as int);
        assert((s.len() + width - 1) as int == (width + (s.len() - 1)) as int);
        assert((rest + width - 1) as int == (s.len() - 1) as int);
    }
}

/// The screen as the display-preservation protocol sees it: a
/// sequence of terminal rows, oldest first.  An accepted message
/// clears `clear_rows` rows upward (removing them), prints `text` on
/// its own row, then redraws the saved in-progress line beneath.
pub open spec fn spec_apply_accept(
    screen: Seq<Seq<char>>,
    clear_rows: nat,
    text: Seq<char>,
    redraw: Option<Seq<char>>,
    width: nat,
) -> Seq<Seq<char>>
    recommends
        clear_rows <= screen.len(),
{
    let cleared = screen.take(screen.len() - clear_rows);
    let printed = cleared.push(text);
    match redraw {
        Option::None => printed,
        Option::Some(s) => printed + spec_wrap(s, width),
    }
}

/// Display preservation: when the screen ends in the wrapped rows of
/// the typed line and a message is accepted, the receiver's actions
/// — clearing that many rows, printing, redrawing — leave the message
/// on its own row with the typed line intact beneath it.  The cleared
/// row count is the line model's, which the receiver takes from the
/// mailbox.
pub proof fn lemma_display_preservation(
    base: Seq<Seq<char>>,
    line: Seq<char>,
    text: Seq<char>,
    width: nat,
)
    requires
        width > 0,
    ensures
        spec_apply_accept(
            base + spec_wrap(line, width),
            spec_rows(line.len(), width),
            text,
            Some(line),
            width,
        ) == base.push(text) + spec_wrap(line, width),
        spec_rows(line.len(), width) <= 255 ==> crate::io::spec_rows_u8(line.len(), width) as nat
            == spec_rows(line.len(), width),
{
    lemma_wrap_rows(line, width);
    let screen = base + spec_wrap(line, width);
    assert(screen.take(base.len() as int) =~= base);
    assert(spec_apply_accept(
        screen,
        spec_rows(line.len(), width),
        text,
        Some(line),
        width,
    ) =~= base.push(text) + spec_wrap(line, width));
}

} // verus!
