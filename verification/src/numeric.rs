use vstd::prelude::*;

verus! {

/// Whether `b` is an ASCII decimal digit.
pub open spec fn spec_is_digit(b: u8) -> bool {
    48 <= b <= 57
}

/// The canonical decimal rendering of a byte value: one to three
/// digits, no leading zero.
pub open spec fn spec_dec_u8(v: u8) -> Seq<u8> {
    if v < 10 {
        seq![(48 + v) as u8]
    } else if v < 100 {
        seq![(48 + v / 10) as u8, (48 + v % 10) as u8]
    } else {
        seq![(48 + v / 100) as u8, (48 + (v / 10) % 10) as u8, (48 + v % 10) as u8]
    }
}

/// The canonical decimal rendering of a 16-bit value, digit by digit.
pub open spec fn spec_dec_u16(v: u16) -> Seq<char>
    decreases v,
{
    if v < 10 {
        seq![spec_digit_char(v as u8)]
    } else {
        spec_dec_u16(v / 10).push(spec_digit_char((v % 10) as u8))
    }
}

/// The character for a single decimal digit value.
pub open spec fn spec_digit_char(d: u8) -> char {
    ((48 + d) as u8) as char
}

/// Appends the canonical decimal digits of `v` to `out`.
pub fn write_dec_u8(out: &mut Vec<u8>, v: u8)
    ensures
        final(out)@ == old(out)@ + spec_dec_u8(v),
{
    if v < 10 {
        out.push(48 + v);
    } else if v < 100 {
        out.push(48 + v / 10);
        out.push(48 + v % 10);
    } else {
        out.push(48 + v / 100);
        out.push(48 + (v / 10) % 10);
        out.push(48 + v % 10);
    }
    proof {
        assert(final(out)@ =~= old(out)@ + spec_dec_u8(v));
    }
}

/// Whether the canonical decimal rendering of `v` stands at position
/// `i` of `bytes` and ends there: the byte that follows it, if any, is
/// not a digit.
pub open spec fn spec_dec_u8_at(bytes: Seq<u8>, i: int, v: u8) -> bool {
    let rep = spec_dec_u8(v);
    &&& 0 <= i
    &&& i + rep.len() <= bytes.len()
    &&& bytes.subrange(i, i + rep.len()) == rep
    &&& (i + rep.len() == bytes.len() || !spec_is_digit(bytes[i + rep.len()]))
}

/// A byte value equals the number its canonical decimal digits spell.
proof fn lemma_u8_recompose(v: u8)
    ensures
        v < 100 ==> v == 10 * (v as int / 10) + v as int % 10,
        100 <= v ==> v == 100 * (v as int / 100) + 10 * ((v as int / 10) % 10) + v as int % 10,
        100 <= v ==> 1 <= v as int / 100 <= 2,
{
    let x = v as int;
    vstd::arithmetic::div_mod::lemma_fundamental_div_mod(x, 10);
    if 100 <= v {
        vstd::arithmetic::div_mod::lemma_fundamental_div_mod(x / 10, 10);
        vstd::arithmetic::div_mod::lemma_div_denominator(x, 10, 10);
        vstd::arithmetic::div_mod::lemma_div_is_ordered(100, x, 100);
        vstd::arithmetic::div_mod::lemma_div_is_ordered(x, 255, 100);
    }
}

/// The quotients and remainders of a value assembled from canonical
/// digits.
proof fn lemma_u8_digits(d0: int, d1: int, d2: int)
    requires
        0 <= d0 <= 9,
        0 <= d1 <= 9,
        0 <= d2 <= 9,
    ensures
        (10 * d0 + d1) / 10 == d0,
        (10 * d0 + d1) % 10 == d1,
        (100 * d0 + 10 * d1 + d2) / 100 == d0,
        ((100 * d0 + 10 * d1 + d2) / 10) % 10 == d1,
        (100 * d0 + 10 * d1 + d2) % 10 == d2,
{
    vstd::arithmetic::div_mod::lemma_div_multiples_vanish_fancy(d0, d1, 10);
    vstd::arithmetic::div_mod::lemma_mod_multiples_vanish(d0, d1, 10);
    vstd::arithmetic::div_mod::lemma_small_mod(d1 as nat, 10);
    let u = 100 * d0 + 10 * d1 + d2;
    assert(u == 100 * d0 + (10 * d1 + d2));
    vstd::arithmetic::div_mod::lemma_div_multiples_vanish_fancy(d0, 10 * d1 + d2, 100);
    assert(u == 10 * (10 * d0 + d1) + d2);
    vstd::arithmetic::div_mod::lemma_div_multiples_vanish_fancy(10 * d0 + d1, d2, 10);
    vstd::arithmetic::div_mod::lemma_mod_multiples_vanish(10 * d0 + d1, d2, 10);
    vstd::arithmetic::div_mod::lemma_small_mod(d2 as nat, 10);
}

/// Every character of a canonical decimal rendering is a digit.
pub proof fn lemma_dec_u8_digits(v: u8)
    ensures
        forall|k: int| 0 <= k < spec_dec_u8(v).len() ==> spec_is_digit(#[trigger] spec_dec_u8(v)[k]),
{
    lemma_u8_recompose(v);
}

/// At most one byte value has its canonical rendering standing at a
/// given position: the digits and the boundary pin it down.
pub proof fn lemma_dec_u8_at_unique(bytes: Seq<u8>, i: int, v1: u8, v2: u8)
    requires
        spec_dec_u8_at(bytes, i, v1),
        spec_dec_u8_at(bytes, i, v2),
    ensures
        v1 == v2,
{
    let r1 = spec_dec_u8(v1);
    let r2 = spec_dec_u8(v2);
    lemma_dec_u8_digits(v1);
    lemma_dec_u8_digits(v2);
    lemma_u8_recompose(v1);
    lemma_u8_recompose(v2);
    assert(forall|k: int| 0 <= k < r1.len() ==> #[trigger] bytes[i + k] == r1[k]) by {
        assert(forall|k: int|
            0 <= k < r1.len() ==> bytes.subrange(i, i + r1.len())[k] == #[trigger] bytes[i + k]);
    }
    assert(forall|k: int| 0 <= k < r2.len() ==> #[trigger] bytes[i + k] == r2[k]) by {
        assert(forall|k: int|
            0 <= k < r2.len() ==> bytes.subrange(i, i + r2.len())[k] == #[trigger] bytes[i + k]);
    }
    if r1.len() < r2.len() {
        assert(spec_is_digit(bytes[i + r1.len()]));
        assert(false);
    } else if r2.len() < r1.len() {
        assert(spec_is_digit(bytes[i + r2.len()]));
        assert(false);
    } else {
        assert(r1[0] == bytes[i] == r2[0]);
        if r1.len() >= 2 {
            assert(r1[1] == bytes[i + 1] == r2[1]);
        }
        if r1.len() == 3 {
            assert(r1[2] == bytes[i + 2] == r2[2]);
        }
    }
}

/// Reads one canonically rendered byte value at position `i`:
/// one to three digits, no leading zero, at most 255, not followed by
/// a further digit.  Returns the value and the position after it.
pub fn parse_dec_u8(bytes: &Vec<u8>, i: usize) -> (r: Option<(u8, usize)>)
    requires
        i <= bytes@.len(),
    ensures
        r matches Some(p) ==> i < p.1 <= bytes@.len() && spec_dec_u8_at(bytes@, i as int, p.0)
            && p.1 == i + spec_dec_u8(p.0).len(),
        forall|v: u8| spec_dec_u8_at(bytes@, i as int, v) ==> r == Some::<(u8, usize)>(
            (v, (i + spec_dec_u8(v).len()) as usize),
        ),
{
    let ghost bs = bytes@;
    let len = bytes.len();
    if i >= len || !(48 <= bytes[i] && bytes[i] <= 57) {
        proof {
            assert forall|v: u8| !spec_dec_u8_at(bs, i as int, v) by {
                if spec_dec_u8_at(bs, i as int, v) {
                    let rep = spec_dec_u8(v);
                    lemma_u8_recompose(v);
                    assert(rep[0] == bs.subrange(i as int, i + rep.len())[0]);
                    assert(spec_is_digit(bs[i as int]));
                }
            }
        }
        return None;
    }
    let d0 = bytes[i] - 48;
    if i + 1 < len && 48 <= bytes[i + 1] && bytes[i + 1] <= 57 {
        if d0 == 0 {
            proof {
                assert forall|v: u8| !spec_dec_u8_at(bs, i as int, v) by {
                    if spec_dec_u8_at(bs, i as int, v) {
                        let rep = spec_dec_u8(v);
                        lemma_u8_recompose(v);
                        assert(rep[0] == bs.subrange(i as int, i + rep.len())[0]);
                        // a canonical first digit of zero forces a
                        // one-digit rendering, but a digit follows
                        assert(v < 10 && rep.len() == 1);
                    }
                }
            }
            return None;
        }
        let d1 = bytes[i + 1] - 48;
        if i + 2 < len && 48 <= bytes[i + 2] && bytes[i + 2] <= 57 {
            if i + 3 < len && 48 <= bytes[i + 3] && bytes[i + 3] <= 57 {
                proof {
                    assert forall|v: u8| !spec_dec_u8_at(bs, i as int, v) by {
                        if spec_dec_u8_at(bs, i as int, v) {
                            let rep = spec_dec_u8(v);
                            assert(rep.len() <= 3);
                            assert(spec_is_digit(bs[i + rep.len()]));
                        }
                    }
                }
                return None;
            }
            let d2 = bytes[i + 2] - 48;
            let val: u32 = d0 as u32 * 100 + d1 as u32 * 10 + d2 as u32;
            if val > 255 {
                proof {
                    assert forall|v: u8| !spec_dec_u8_at(bs, i as int, v) by {
                        if spec_dec_u8_at(bs, i as int, v) {
                            let rep = spec_dec_u8(v);
                            lemma_u8_recompose(v);
                            assert(rep.len() == 3 ==> rep[0] == bs[i as int] && rep[1] == bs[i
                                + 1] && rep[2] == bs[i + 2]);
                            assert(rep.len() < 3 ==> spec_is_digit(bs[i + rep.len()]));
                        }
                    }
                }
                return None;
            }
            let r = Some((val as u8, i + 3));
            proof {
                lemma_u8_digits(d0 as int, d1 as int, d2 as int);
                let rep = spec_dec_u8(val as u8);
                assert(bs.subrange(i as int, i + 3) =~= rep);
                assert forall|v: u8| spec_dec_u8_at(bs, i as int, v) implies v == val as u8 by {
                    let repv = spec_dec_u8(v);
                    lemma_u8_recompose(v);
                    assert(repv.len() == 3 ==> repv[0] == bs[i as int] && repv[1] == bs[i + 1]
                        && repv[2] == bs[i + 2]);
                    assert(repv.len() < 3 ==> spec_is_digit(bs[i + repv.len()]));
                }
            }
            r
        } else {
            let r = Some((d0 * 10 + d1, i + 2));
            proof {
                lemma_u8_digits(d0 as int, d1 as int, 0);
                let rep = spec_dec_u8((d0 * 10 + d1) as u8);
                assert(bs.subrange(i as int, i + 2) =~= rep);
                assert forall|v: u8| spec_dec_u8_at(bs, i as int, v) implies v == d0 * 10 + d1 by {
                    let repv = spec_dec_u8(v);
                    lemma_u8_recompose(v);
                    assert(repv.len() == 2 ==> repv[0] == bs[i as int] && repv[1] == bs[i + 1]);
                    assert(repv.len() == 1 ==> spec_is_digit(bs[i + 1]));
                    assert(repv.len() == 3 ==> i + 3 <= len && spec_is_digit(
                        bs.subrange(i as int, i + 3)[2],
                    ));
                }
            }
            r
        }
    } else {
        let r = Some((d0, i + 1));
        proof {
            let rep = spec_dec_u8(d0);
            assert(bs.subrange(i as int, i + 1) =~= rep);
            assert forall|v: u8| spec_dec_u8_at(bs, i as int, v) implies v == d0 by {
                let repv = spec_dec_u8(v);
                lemma_u8_recompose(v);
                assert(repv[0] == bs.subrange(i as int, i + repv.len())[0]);
                if repv.len() >= 2 {
                    assert(bs.subrange(i as int, i + repv.len())[1] == bs[i + 1]);
                    assert(spec_is_digit(repv[1]));
                }
            }
        }
        r
    }
}

} // verus!
