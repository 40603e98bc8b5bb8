use vstd::prelude::*;

verus! {

/// Number of terminal rows a line of `len` bytes occupies at `width`
/// columns: zero for an empty line, otherwise the ceiling of
/// `len / width`.
pub open spec fn spec_rows(len: nat, width: nat) -> nat
    recommends
        width > 0,
{
    if len == 0 {
        0
    } else {
        ((len + width - 1) as int / width as int) as nat
    }
}

/// `spec_rows` saturated to the largest `u8`, which is how a row count
/// is stored.
pub open spec fn spec_rows_u8(len: nat, width: nat) -> u8 {
    if spec_rows(len, width) > 255 {
        255u8
    } else {
        spec_rows(len, width) as u8
    }
}

/// The sender's in-progress input line together with the number of
/// terminal rows it occupied when it was built.
#[derive(Clone, Debug, PartialEq)]
pub struct Line {
    pub content: String,
    pub length: u8,
}

impl Line {
    /// A line model for `content` on a terminal `width` columns wide.
    pub fn new(content: String, width: u16) -> (r: Line)
        requires
            width >= 1,
        ensures
            r.content@ == content@,
            r.length == spec_rows_u8(content@.len() as nat, width as nat),
    {
        let length = Self::get_content_lines_length(&content, width);
        Line { content, length }
    }

    /// How many rows `content` occupies at `width` columns, saturated
    /// to 255.
    pub fn get_content_lines_length(content: &String, width: u16) -> (r: u8)
        requires
            width >= 1,
        ensures
            r == spec_rows_u8(content@.len() as nat, width as nat),
    {
        let n = content.as_str().unicode_len();
        let w = width as usize;
        if n == 0 {
            0
        } else {
            let full = n / w;
            let rows = if n % w == 0 {
                full
            } else {
                proof {
                    vstd::arithmetic::div_mod::lemma_fundamental_div_mod(n as int, w as int);
                    assert(full as int <= (w as int) * (full as int)) by (nonlinear_arith)
                        requires
                            w >= 1,
                            full >= 0,
                    ;
                }
                full + 1
            };
            proof {
                lemma_ceil_div(n as nat, w as nat);
            }
            if rows > 255 {
                255
            } else {
                rows as u8
            }
        }
    }
}

/// Ceiling division agrees with the quotient-and-remainder form
/// computed by the executable code.
proof fn lemma_ceil_div(n: nat, w: nat)
    requires
        w > 0,
        n > 0,
    ensures
        spec_rows(n, w) == n as int / w as int + (if n as int % w as int == 0 {
            0int
        } else {
            1int
        }),
{
    let q = n as int / w as int;
    let r = n as int % w as int;
    vstd::arithmetic::div_mod::lemma_fundamental_div_mod(n as int, w as int);
    vstd::arithmetic::div_mod::lemma_fundamental_div_mod((n + w - 1) as int, w as int);
    if r == 0 {
        assert((n + w - 1) as int == q * (w as int) + (w - 1));
        vstd::arithmetic::div_mod::lemma_div_multiples_vanish_fancy(q, (w - 1) as int, w as int);
    } else {
        assert((n + w - 1) as int == (q + 1) * (w as int) + (r - 1)) by {
            assert(q * (w as int) + (w as int) == (q + 1) * (w as int))
                by (nonlinear_arith);
        }
        vstd::arithmetic::div_mod::lemma_div_multiples_vanish_fancy(
            q + 1,
            r - 1,
            w as int,
        );
    }
}

/// For a fixed terminal width, the row count never shrinks as the line
/// grows; an empty line occupies no rows; a line of at most one
/// terminal width occupies exactly one.
pub proof fn lemma_rows_monotonic(len1: nat, len2: nat, width: nat)
    requires
        width > 0,
        len1 <= len2,
    ensures
        spec_rows(len1, width) <= spec_rows(len2, width),
        spec_rows_u8(len1, width) <= spec_rows_u8(len2, width),
        spec_rows(0, width) == 0,
        0 < len1 <= width ==> spec_rows(len1, width) == 1,
{
    if len1 > 0 {
        vstd::arithmetic::div_mod::lemma_div_is_ordered(
            (len1 + width - 1) as int,
            (len2 + width - 1) as int,
            width as int,
        );
        if len1 <= width {
            assert((len1 + width - 1) as int == (width as int) * 1 + (len1 - 1));
            vstd::arithmetic::div_mod::lemma_div_multiples_vanish_fancy(
                1,
                (len1 - 1) as int,
                width as int,
            );
        }
    }
}

} // verus!
