use vstd::prelude::*;

use crate::config::NONCE_LENGTH;
use crate::key::spec_is_b64_char;
use crate::numeric::{parse_dec_u8, spec_dec_u8, spec_dec_u8_at, spec_is_digit, write_dec_u8};

verus! {

/// The mathematical model of a message envelope: ciphertext bytes,
/// nonce bytes, and the base64 signature characters.
pub struct MsgModel {
    pub content: Seq<u8>,
    pub nonce: Seq<u8>,
    pub signature: Seq<char>,
}

/// A well-formed envelope: the nonce is exactly `NONCE_LENGTH` bytes
/// and the signature is made of base64 characters.
pub open spec fn wf_model(m: MsgModel) -> bool {
    &&& m.nonce.len() == NONCE_LENGTH
    &&& forall|k: int| 0 <= k < m.signature.len() ==> spec_is_b64_char(#[trigger] m.signature[k])
}

/// Whether `b` is the byte of a base64 character or the pad.
pub open spec fn spec_is_b64_byte(b: u8) -> bool {
    (65 <= b <= 90) || (97 <= b <= 122) || (48 <= b <= 57) || b == 43 || b == 47 || b == 61
}

/// The characters spelled by a sequence of ASCII bytes.
pub open spec fn chars_of_bytes(bytes: Seq<u8>) -> Seq<char> {
    Seq::new(bytes.len(), |k: int| bytes[k] as char)
}

/// The bytes spelled by a sequence of ASCII characters.
pub open spec fn bytes_of_chars(s: Seq<char>) -> Seq<u8> {
    Seq::new(s.len(), |k: int| (s[k] as u32) as u8)
}

/// The bytes of `{"content":[`.
pub open spec fn lit_open() -> Seq<u8> {
    seq![123u8, 34u8, 99u8, 111u8, 110u8, 116u8, 101u8, 110u8, 116u8, 34u8, 58u8, 91u8]
}

/// The bytes of `,"nonce":[`.
pub open spec fn lit_nonce() -> Seq<u8> {
    seq![44u8, 34u8, 110u8, 111u8, 110u8, 99u8, 101u8, 34u8, 58u8, 91u8]
}

/// The bytes of `,"signature":"`.
pub open spec fn lit_signature() -> Seq<u8> {
    seq![
        44u8,
        34u8,
        115u8,
        105u8,
        103u8,
        110u8,
        97u8,
        116u8,
        117u8,
        114u8,
        101u8,
        34u8,
        58u8,
        34u8,
    ]
}

/// The bytes of `"}`.
pub open spec fn lit_close() -> Seq<u8> {
    seq![34u8, 125u8]
}

/// The JSON rendering of a byte list: canonical decimal digits with
/// commas between the elements.
pub open spec fn list_rep(l: Seq<u8>) -> Seq<u8>
    decreases l.len(),
{
    if l.len() == 0 {
        Seq::empty()
    } else if l.len() == 1 {
        spec_dec_u8(l[0])
    } else {
        spec_dec_u8(l[0]) + seq![44u8] + list_rep(l.drop_first())
    }
}

/// The exact wire bytes of an envelope: the UTF-8 of
/// `{"content":[...],"nonce":[...],"signature":"..."}`.
pub open spec fn wire_of(m: MsgModel) -> Seq<u8> {
    lit_open() + list_rep(m.content) + seq![93u8] + lit_nonce() + list_rep(m.nonce) + seq![93u8]
        + lit_signature() + bytes_of_chars(m.signature) + lit_close()
}

/// Appending an element extends a list rendering by a comma (unless
/// the list was empty) and the element's digits.
pub proof fn lemma_list_rep_snoc(l: Seq<u8>)
    requires
        l.len() >= 1,
    ensures
        l.len() == 1 ==> list_rep(l) == spec_dec_u8(l.last()),
        l.len() > 1 ==> list_rep(l) == list_rep(l.drop_last()) + seq![44u8] + spec_dec_u8(l.last()),
    decreases l.len(),
{
    if l.len() == 1 {
    } else if l.len() == 2 {
        reveal_with_fuel(list_rep, 3);
        assert(l.drop_first() =~= seq![l[1]]);
        assert(l.drop_last() =~= seq![l[0]]);
        assert(list_rep(l.drop_first()) == spec_dec_u8(l[1]));
        assert(list_rep(l.drop_last()) == spec_dec_u8(l[0]));
        assert(list_rep(l) =~= list_rep(l.drop_last()) + seq![44u8] + spec_dec_u8(l.last()));
    } else {
        let f = l.drop_first();
        lemma_list_rep_snoc(f);
        assert(f.drop_last() =~= l.drop_last().drop_first());
        assert(f.last() == l.last());
        assert(list_rep(l.drop_last()) == spec_dec_u8(l[0]) + seq![44u8] + list_rep(
            l.drop_last().drop_first(),
        ));
        assert(list_rep(l) =~= list_rep(l.drop_last()) + seq![44u8] + spec_dec_u8(l.last()));
    }
}

/// A sequence of ASCII bytes is valid UTF-8 and decodes to exactly
/// its characters.
pub proof fn lemma_ascii_utf8(bytes: Seq<u8>)
    requires
        forall|k: int| 0 <= k < bytes.len() ==> bytes[k] < 128,
    ensures
        vstd::utf8::valid_utf8(bytes),
        vstd::utf8::decode_utf8(bytes) == chars_of_bytes(bytes),
        vstd::utf8::encode_utf8(chars_of_bytes(bytes)) == bytes,
    decreases bytes.len(),
{
    if bytes.len() == 0 {
        assert(vstd::utf8::decode_utf8(bytes) =~= chars_of_bytes(bytes));
        assert(vstd::utf8::encode_utf8(chars_of_bytes(bytes)) =~= bytes);
    } else {
        let b = bytes[0];
        let s = b as u32;
        assert(s & 0x7F == s) by (bit_vector)
            requires
                s < 128,
        ;
        assert(vstd::utf8::is_leading_byte_width_1(b));
        assert(vstd::utf8::length_of_first_codepoint(bytes) == 1);
        assert(vstd::utf8::leading_bits_width_1(b) == s);
        assert(vstd::utf8::decode_first_codepoint(bytes) == s);
        assert(vstd::utf8::valid_first_scalar(bytes));
        assert(vstd::utf8::pop_first_scalar(bytes) =~= bytes.drop_first());
        lemma_ascii_utf8(bytes.drop_first());
        assert(vstd::utf8::decode_utf8(bytes) =~= chars_of_bytes(bytes));
        let c = chars_of_bytes(bytes)[0];
        assert(c as u32 == s);
        assert(vstd::utf8::has_width_1_encoding(c as u32));
        assert(vstd::utf8::leading_byte_width_1(c as u32) == (s & 0x7F) as u8 == b);
        assert(vstd::utf8::encode_scalar(c as u32) =~= seq![b]);
        assert(chars_of_bytes(bytes).drop_first() =~= chars_of_bytes(bytes.drop_first()));
        assert(vstd::utf8::encode_utf8(chars_of_bytes(bytes)) =~= bytes);
    }
}

/// Every byte of a wire rendering of a well-formed envelope is ASCII.
pub proof fn lemma_wire_ascii(m: MsgModel)
    requires
        wf_model(m),
    ensures
        forall|k: int| 0 <= k < wire_of(m).len() ==> wire_of(m)[k] < 128,
{
    lemma_list_rep_ascii(m.content);
    lemma_list_rep_ascii(m.nonce);
    let sb = bytes_of_chars(m.signature);
    assert forall|j: int| 0 <= j < sb.len() implies sb[j] < 128 by {
        let c = m.signature[j];
        assert(spec_is_b64_char(c));
        assert(((c as u32) as u8) as u32 == c as u32);
    }
    assert forall|k: int| 0 <= k < wire_of(m).len() implies wire_of(m)[k] < 128 by {
        assert(forall|j: int| 0 <= j < list_rep(m.content).len() ==> #[trigger] list_rep(
            m.content,
        )[j] < 128);
        assert(forall|j: int| 0 <= j < list_rep(m.nonce).len() ==> #[trigger] list_rep(
            m.nonce,
        )[j] < 128);
    }
}

/// Every byte of a list rendering is an ASCII digit or a comma.
proof fn lemma_list_rep_ascii(l: Seq<u8>)
    ensures
        forall|k: int| 0 <= k < list_rep(l).len() ==> (spec_is_digit(#[trigger] list_rep(l)[k])
            || list_rep(l)[k] == 44),
    decreases l.len(),
{
    if l.len() == 0 {
    } else if l.len() == 1 {
        crate::numeric::lemma_dec_u8_digits(l[0]);
    } else {
        crate::numeric::lemma_dec_u8_digits(l[0]);
        lemma_list_rep_ascii(l.drop_first());
        assert forall|k: int|
            0 <= k < list_rep(l).len() implies (spec_is_digit(#[trigger] list_rep(l)[k])
            || list_rep(l)[k] == 44) by {
            let head = spec_dec_u8(l[0]);
            if k < head.len() {
                assert(list_rep(l)[k] == head[k]);
            } else if k == head.len() {
                assert(list_rep(l)[k] == 44);
            } else {
                assert(list_rep(l)[k] == list_rep(l.drop_first())[k - head.len() - 1]);
            }
        }
    }
}

/// A vector holding the bytes of `{"content":[`.
fn lit_open_vec() -> (r: Vec<u8>)
    ensures
        r@ == lit_open(),
{
    let mut v: Vec<u8> = Vec::new();
    v.push(123);
    v.push(34);
    v.push(99);
    v.push(111);
    v.push(110);
    v.push(116);
    v.push(101);
    v.push(110);
    v.push(116);
    v.push(34);
    v.push(58);
    v.push(91);
    proof {
        assert(v@ =~= lit_open());
    }
    v
}

/// A vector holding the bytes of `,"nonce":[`.
fn lit_nonce_vec() -> (r: Vec<u8>)
    ensures
        r@ == lit_nonce(),
{
    let mut v: Vec<u8> = Vec::new();
    v.push(44);
    v.push(34);
    v.push(110);
    v.push(111);
    v.push(110);
    v.push(99);
    v.push(101);
    v.push(34);
    v.push(58);
    v.push(91);
    proof {
        assert(v@ =~= lit_nonce());
    }
    v
}

/// A vector holding the bytes of `,"signature":"`.
fn lit_signature_vec() -> (r: Vec<u8>)
    ensures
        r@ == lit_signature(),
{
    let mut v: Vec<u8> = Vec::new();
    v.push(44);
    v.push(34);
    v.push(115);
    v.push(105);
    v.push(103);
    v.push(110);
    v.push(97);
    v.push(116);
    v.push(117);
    v.push(114);
    v.push(101);
    v.push(34);
    v.push(58);
    v.push(34);
    proof {
        assert(v@ =~= lit_signature());
    }
    v
}

/// Appends the JSON rendering of a byte list (without its brackets)
/// to `out`.
fn write_list(out: &mut Vec<u8>, l: &Vec<u8>)
    ensures
        final(out)@ == old(out)@ + list_rep(l@),
{
    let mut k: usize = 0;
    while k < l.len()
        invariant
            k <= l@.len(),
            out@ == old(out)@ + list_rep(l@.take(k as int)),
        decreases l@.len() - k,
    {
        if k > 0 {
            out.push(44);
        }
        write_dec_u8(out, l[k]);
        proof {
            let taken = l@.take(k + 1);
            lemma_list_rep_snoc(taken);
            assert(taken.drop_last() =~= l@.take(k as int));
            assert(taken.last() == l@[k as int]);
            if k == 0 {
                assert(taken =~= seq![l@[0]]);
                assert(out@ =~= old(out)@ + list_rep(taken));
            } else {
                assert(out@ =~= old(out)@ + list_rep(taken));
            }
        }
        k += 1;
    }
    proof {
        assert(l@.take(l@.len() as int) =~= l@);
    }
}

/// The wire bytes of an envelope given as its three parts; the
/// signature is handed over as its ASCII bytes.
pub fn render_wire(content: &Vec<u8>, nonce: &Vec<u8>, signature_bytes: &Vec<u8>) -> (r: Vec<u8>)
    ensures
        r@ == wire_of(
            MsgModel {
                content: content@,
                nonce: nonce@,
                signature: chars_of_bytes(signature_bytes@),
            },
        ),
{
    let mut out = lit_open_vec();
    write_list(&mut out, content);
    out.push(93);
    let mut mid = lit_nonce_vec();
    out.append(&mut mid);
    write_list(&mut out, nonce);
    out.push(93);
    let mut mid2 = lit_signature_vec();
    out.append(&mut mid2);
    let mut sig = signature_bytes.clone();
    out.append(&mut sig);
    out.push(34);
    out.push(125);
    proof {
        assert(bytes_of_chars(chars_of_bytes(signature_bytes@)) =~= signature_bytes@) by {
            assert forall|k: int|
                0 <= k < signature_bytes@.len() implies bytes_of_chars(
                chars_of_bytes(signature_bytes@),
            )[k] == signature_bytes@[k] by {
                let b = signature_bytes@[k];
                assert(((b as char) as u32) as u8 == b);
            }
        }
        assert(out@ =~= wire_of(
            MsgModel {
                content: content@,
                nonce: nonce@,
                signature: chars_of_bytes(signature_bytes@),
            },
        ));
    }
    out
}

/// Whether the rendering of list `l`, closed by `]`, stands at
/// position `i` of `bytes`.
pub open spec fn list_matches_at(bytes: Seq<u8>, i: int, l: Seq<u8>) -> bool {
    &&& 0 <= i
    &&& i + list_rep(l).len() + 1 <= bytes.len()
    &&& bytes.subrange(i, i + list_rep(l).len() + 1) == list_rep(l) + seq![93u8]
}

/// Whether the base64 bytes `sb`, closed by `"`, stand at position
/// `i` of `bytes`.
pub open spec fn sig_matches_at(bytes: Seq<u8>, i: int, sb: Seq<u8>) -> bool {
    &&& 0 <= i
    &&& i + sb.len() + 1 <= bytes.len()
    &&& bytes.subrange(i, i + sb.len() + 1) == sb + seq![34u8]
    &&& forall|k: int| 0 <= k < sb.len() ==> spec_is_b64_byte(#[trigger] sb[k])
}

/// The rendering of the elements parsed so far: with the comma that
/// announced a further element, unless nothing was parsed yet.
pub open spec fn render_prefix(acc: Seq<u8>) -> Seq<u8> {
    if acc.len() == 0 {
        Seq::empty()
    } else {
        list_rep(acc) + seq![44u8]
    }
}

/// Base64 characters become base64 bytes below 128, and reading the
/// bytes back gives the same characters.
pub proof fn lemma_b64_chars_to_bytes(s: Seq<char>)
    requires
        forall|k: int| 0 <= k < s.len() ==> spec_is_b64_char(#[trigger] s[k]),
    ensures
        forall|k: int| 0 <= k < s.len() ==> spec_is_b64_byte(#[trigger] bytes_of_chars(s)[k]),
        chars_of_bytes(bytes_of_chars(s)) == s,
{
    let bs = bytes_of_chars(s);
    assert forall|k: int| 0 <= k < s.len() implies spec_is_b64_byte(#[trigger] bs[k]) by {
        let c = s[k];
        assert(spec_is_b64_char(c));
        assert(((c as u32) as u8) as u32 == c as u32);
    }
    assert(chars_of_bytes(bs) =~= s) by {
        assert forall|k: int| 0 <= k < s.len() implies chars_of_bytes(bs)[k] == s[k] by {
            let c = s[k];
            assert(spec_is_b64_char(c));
            assert(((c as u32) as u8) as u32 == c as u32);
            let ch = bs[k] as char;
            assert(ch as u32 == bs[k] as u32);
            vstd::utf8::char_u32_cast(ch, ch as u32);
            vstd::utf8::char_u32_cast(c, c as u32);
        }
    }
}

/// Base64 bytes become base64 characters, and writing them back gives
/// the same bytes.
pub proof fn lemma_b64_bytes_to_chars(sb: Seq<u8>)
    requires
        forall|k: int| 0 <= k < sb.len() ==> spec_is_b64_byte(#[trigger] sb[k]),
    ensures
        forall|k: int|
            0 <= k < sb.len() ==> spec_is_b64_char(#[trigger] chars_of_bytes(sb)[k]),
        bytes_of_chars(chars_of_bytes(sb)) == sb,
{
    let cs = chars_of_bytes(sb);
    assert forall|k: int| 0 <= k < sb.len() implies spec_is_b64_char(#[trigger] cs[k]) by {
        let b = sb[k];
        assert(spec_is_b64_byte(b));
        assert((b as char) as u32 == b as u32);
    }
    assert(bytes_of_chars(cs) =~= sb) by {
        assert forall|k: int| 0 <= k < sb.len() implies bytes_of_chars(cs)[k] == sb[k] by {
            let b = sb[k];
            assert((b as char) as u32 == b as u32);
        }
    }
}

/// A sequence assembled from two parts ends in its second part.
proof fn lemma_drop_prefix(s: Seq<u8>, a: Seq<u8>, b: Seq<u8>)
    requires
        s == a + b,
    ensures
        s.subrange(a.len() as int, s.len() as int) == b,
{
    assert(s.subrange(a.len() as int, s.len() as int) =~= b);
}

/// Whether `pat` stands at position `i` of `bytes`; on a match,
/// returns the position after it.
fn match_lit(bytes: &Vec<u8>, i: usize, pat: &Vec<u8>) -> (r: Option<usize>)
    requires
        i <= bytes@.len(),
    ensures
        r matches Some(j) ==> j == i + pat@.len() && j <= bytes@.len() && bytes@.subrange(
            i as int,
            j as int,
        ) == pat@,
        r is None ==> !(i + pat@.len() <= bytes@.len() && bytes@.subrange(
            i as int,
            i + pat@.len(),
        ) == pat@),
{
    if bytes.len() - i < pat.len() {
        return None;
    }
    let mut k: usize = 0;
    while k < pat.len()
        invariant
            k <= pat@.len(),
            i + pat@.len() <= bytes@.len(),
            bytes@.len() <= usize::MAX,
            forall|t: int| 0 <= t < k ==> bytes@[i + t] == pat@[t],
        decreases pat@.len() - k,
    {
        if bytes[i + k] != pat[k] {
            proof {
                if bytes@.subrange(i as int, i + pat@.len()) == pat@ {
                    assert(bytes@.subrange(i as int, i + pat@.len())[k as int] == bytes@[i + k]);
                }
            }
            return None;
        }
        k += 1;
    }
    proof {
        assert(bytes@.subrange(i as int, i + pat@.len()) =~= pat@);
    }
    Some(i + pat.len())
}

/// Reads a canonically rendered byte list up to and including its
/// closing `]`: exactly the lists whose rendering stands at `i` are
/// accepted, and the one that matches is returned.
#[verifier::rlimit(80)]
fn parse_list(bytes: &Vec<u8>, i: usize) -> (r: Option<(Vec<u8>, usize)>)
    requires
        i <= bytes@.len(),
    ensures
        r matches Some(p) ==> list_matches_at(bytes@, i as int, p.0@) && p.1 == i + list_rep(
            p.0@,
        ).len() + 1,
        forall|l: Seq<u8>|
            list_matches_at(bytes@, i as int, l) ==> (r matches Some(p) && p.0@ == l && p.1 == i
                + list_rep(l).len() + 1),
{
    let ghost bs = bytes@;
    let len = bytes.len();
    if i < len && bytes[i] == 93 {
        let r = Some((Vec::<u8>::new(), i + 1));
        proof {
            assert(bs.subrange(i as int, i + 1) =~= list_rep(Seq::<u8>::empty()) + seq![93u8]);
            assert forall|l: Seq<u8>| list_matches_at(bs, i as int, l) implies l.len() == 0 by {
                if l.len() > 0 {
                    crate::numeric::lemma_dec_u8_digits(l[0]);
                    assert(list_rep(l)[0] == spec_dec_u8(l[0])[0]);
                    assert(bs.subrange(i as int, i + list_rep(l).len() + 1)[0] == bs[i as int]);
                }
            }
        }
        return r;
    }
    proof {
        assert forall|l: Seq<u8>|
            list_matches_at(bs, i as int, l) implies l.len() > 0 && l.take(0) == Seq::<
            u8,
        >::empty() && l.skip(0) == l by {
            if l.len() == 0 {
                assert(bs.subrange(i as int, i + 1)[0] == bs[i as int]);
            }
            assert(l.take(0) =~= Seq::<u8>::empty());
            assert(l.skip(0) =~= l);
        }
    }
    let mut acc: Vec<u8> = Vec::new();
    let mut pos: usize = i;
    loop
        invariant
            i <= pos <= len,
            len == bs.len(),
            bs == bytes@,
            bs.subrange(i as int, pos as int) == render_prefix(acc@),
            forall|l: Seq<u8>|
                list_matches_at(bs, i as int, l) ==> l.len() > acc@.len() && l.take(
                    acc@.len() as int,
                ) == acc@ && bs.subrange(
                    pos as int,
                    i + list_rep(l).len() + 1,
                ) == list_rep(l.skip(acc@.len() as int)) + seq![93u8] && pos + list_rep(
                    l.skip(acc@.len() as int),
                ).len() + 1 == i + list_rep(l).len() + 1,
        decreases len - pos,
    {
        let parsed = parse_dec_u8(bytes, pos);
        proof {
            assert forall|l: Seq<u8>|
                list_matches_at(bs, i as int, l) implies spec_dec_u8_at(
                bs,
                pos as int,
                l.skip(acc@.len() as int)[0],
            ) by {
                let sk = l.skip(acc@.len() as int);
                let tail = bs.subrange(pos as int, i + list_rep(l).len() + 1);
                assert(tail == list_rep(sk) + seq![93u8]);
                crate::numeric::lemma_dec_u8_digits(sk[0]);
                let rep = spec_dec_u8(sk[0]);
                assert(list_rep(sk).subrange(0, rep.len() as int) =~= rep);
                assert(bs.subrange(pos as int, pos + rep.len()) =~= rep) by {
                    assert forall|t: int| 0 <= t < rep.len() implies bs.subrange(
                        pos as int,
                        pos + rep.len(),
                    )[t] == rep[t] by {
                        assert(tail[t] == bs[pos + t]);
                        assert(tail[t] == list_rep(sk)[t]);
                        assert(list_rep(sk)[t] == rep[t]);
                    }
                }
                // the byte after the digits is a comma or the bracket
                if sk.len() == 1 {
                    assert(tail[rep.len() as int] == 93);
                    assert(bs[pos + rep.len()] == 93);
                } else {
                    assert(list_rep(sk) == rep + seq![44u8] + list_rep(sk.drop_first()));
                    assert(tail[rep.len() as int] == 44);
                    assert(bs[pos + rep.len()] == 44);
                }
            }
        }
        let (v, p2) = match parsed {
            Some(p) => p,
            None => {
                return None;
            },
        };
        if p2 < len && bytes[p2] == 44 {
            let ghost oldacc = acc@;
            acc.push(v);
            proof {
                assert(acc@.drop_last() =~= oldacc);
                assert(acc@.last() == v);
                lemma_list_rep_snoc(acc@);
                assert(bs.subrange(i as int, p2 + 1) =~= render_prefix(acc@)) by {
                    assert(bs.subrange(i as int, pos as int) == render_prefix(oldacc));
                    assert(bs.subrange(pos as int, p2 as int) == spec_dec_u8(v));
                }
                assert forall|l: Seq<u8>|
                    list_matches_at(bs, i as int, l) implies l.len() > acc@.len() && l.take(
                    acc@.len() as int,
                ) == acc@ && bs.subrange(
                    p2 + 1,
                    i + list_rep(l).len() + 1,
                ) == list_rep(l.skip(acc@.len() as int)) + seq![93u8] && p2 + 1 + list_rep(
                    l.skip(acc@.len() as int),
                ).len() + 1 == i + list_rep(l).len() + 1 by {
                    let k = oldacc.len() as int;
                    let sk = l.skip(k);
                    let tail = bs.subrange(pos as int, i + list_rep(l).len() + 1);
                    assert(tail == list_rep(sk) + seq![93u8]);
                    assert(sk[0] == v);
                    let rep = spec_dec_u8(v);
                    if sk.len() == 1 {
                        assert(tail[rep.len() as int] == 93);
                        assert(bs[p2 as int] == 93);
                    }
                    assert(sk.len() >= 2);
                    assert(l.len() > k + 1);
                    assert(l.take(k + 1) =~= oldacc.push(v));
                    assert(l.take(k + 1) == acc@);
                    assert(sk.drop_first() =~= l.skip(k + 1));
                    assert(list_rep(sk) == rep + seq![44u8] + list_rep(sk.drop_first()));
                    assert(tail =~= (rep + seq![44u8]) + (list_rep(l.skip(k + 1))
                        + seq![93u8]));
                    lemma_drop_prefix(
                        tail,
                        rep + seq![44u8],
                        list_rep(l.skip(k + 1)) + seq![93u8],
                    );
                    assert(tail.subrange(rep.len() as int + 1, tail.len() as int) == list_rep(
                        l.skip(k + 1),
                    ) + seq![93u8]);
                    assert(bs.subrange(p2 + 1, i + list_rep(l).len() + 1) =~= tail.subrange(
                        rep.len() as int + 1,
                        tail.len() as int,
                    ));
                }
            }
            pos = p2 + 1;
        } else if p2 < len && bytes[p2] == 93 {
            let ghost oldacc = acc@;
            acc.push(v);
            let r = Some((acc, p2 + 1));
            proof {
                assert(r.unwrap().0@.drop_last() =~= oldacc);
                assert(r.unwrap().0@.last() == v);
                lemma_list_rep_snoc(r.unwrap().0@);
                assert(bs.subrange(i as int, p2 + 1) =~= list_rep(r.unwrap().0@) + seq![93u8])
                    by {
                    assert(bs.subrange(i as int, pos as int) == render_prefix(oldacc));
                    assert(bs.subrange(pos as int, p2 as int) == spec_dec_u8(v));
                    assert(bs[p2 as int] == 93);
                }
                assert(list_matches_at(bs, i as int, r.unwrap().0@));
                assert forall|l: Seq<u8>|
                    list_matches_at(bs, i as int, l) implies l == r.unwrap().0@ by {
                    let k = oldacc.len() as int;
                    let sk = l.skip(k);
                    let tail = bs.subrange(pos as int, i + list_rep(l).len() + 1);
                    assert(tail == list_rep(sk) + seq![93u8]);
                    assert(sk[0] == v);
                    let rep = spec_dec_u8(v);
                    if sk.len() >= 2 {
                        assert(list_rep(sk) == rep + seq![44u8] + list_rep(sk.drop_first()));
                        assert(tail[rep.len() as int] == 44);
                        assert(bs[p2 as int] == 44);
                    }
                    assert(sk.len() == 1);
                    assert(sk =~= seq![v]);
                    assert(l =~= l.take(k).push(v));
                    assert(l =~= r.unwrap().0@);
                }
            }
            return r;
        } else {
            proof {
                assert forall|l: Seq<u8>| !list_matches_at(bs, i as int, l) by {
                    if list_matches_at(bs, i as int, l) {
                        let k = acc@.len() as int;
                        let sk = l.skip(k);
                        let tail = bs.subrange(pos as int, i + list_rep(l).len() + 1);
                        assert(tail == list_rep(sk) + seq![93u8]);
                        assert(sk[0] == v);
                        let rep = spec_dec_u8(v);
                        if sk.len() == 1 {
                            assert(tail[rep.len() as int] == 93);
                            assert(bs[p2 as int] == 93);
                        } else {
                            assert(list_rep(sk) == rep + seq![44u8] + list_rep(sk.drop_first()));
                            assert(tail[rep.len() as int] == 44);
                            assert(bs[p2 as int] == 44);
                        }
                    }
                }
            }
            return None;
        }
    }
}

/// Reads base64 bytes up to and including the closing quote.
fn parse_sig(bytes: &Vec<u8>, i: usize) -> (r: Option<(Vec<u8>, usize)>)
    requires
        i <= bytes@.len(),
    ensures
        r matches Some(p) ==> sig_matches_at(bytes@, i as int, p.0@) && p.1 == i + p.0@.len() + 1,
        forall|sb: Seq<u8>|
            sig_matches_at(bytes@, i as int, sb) ==> (r matches Some(p) && p.0@ == sb && p.1 == i
                + sb.len() + 1),
{
    let ghost bs = bytes@;
    let len = bytes.len();
    let mut acc: Vec<u8> = Vec::new();
    let mut pos: usize = i;
    loop
        invariant
            i <= pos <= len,
            len == bs.len(),
            bs == bytes@,
            acc@.len() == pos - i,
            bs.subrange(i as int, pos as int) == acc@,
            forall|k: int| 0 <= k < acc@.len() ==> spec_is_b64_byte(#[trigger] acc@[k]),
            forall|sb: Seq<u8>|
                sig_matches_at(bs, i as int, sb) ==> sb.len() >= acc@.len() && sb.take(
                    acc@.len() as int,
                ) == acc@,
        decreases len - pos,
    {
        if pos < len {
            let b = bytes[pos];
            if (65 <= b && b <= 90) || (97 <= b && b <= 122) || (48 <= b && b <= 57) || b == 43
                || b == 47 || b == 61 {
                acc.push(b);
                proof {
                    assert(bs.subrange(i as int, pos + 1) =~= acc@);
                    assert forall|sb: Seq<u8>|
                        sig_matches_at(bs, i as int, sb) implies sb.len() >= acc@.len()
                        && sb.take(acc@.len() as int) == acc@ by {
                        let t = acc@.len() - 1;
                        assert(sb.len() >= t && sb.take(t as int) == acc@.drop_last());
                        if sb.len() == t {
                            // the closing quote would stand where a
                            // base64 byte was read
                            assert(bs.subrange(i as int, i + sb.len() + 1)[t as int] == 34);
                            assert(bs[i + t] == 34);
                        } else {
                            assert(bs.subrange(i as int, i + sb.len() + 1)[t as int] == sb[
                                t as int]);
                            assert(sb.take(t + 1) =~= sb.take(t as int).push(sb[t as int]));
                            assert(sb.take(t + 1) == acc@);
                        }
                    }
                }
                pos = pos + 1;
                continue ;
            }
            if b == 34 {
                let r = Some((acc, pos + 1));
                proof {
                    assert(bs.subrange(i as int, pos + 1) =~= r.unwrap().0@ + seq![34u8]);
                    assert(sig_matches_at(bs, i as int, r.unwrap().0@));
                    assert forall|sb: Seq<u8>|
                        sig_matches_at(bs, i as int, sb) implies sb == r.unwrap().0@ by {
                        let t = r.unwrap().0@.len();
                        assert(sb.len() >= t && sb.take(t as int) == r.unwrap().0@);
                        if sb.len() > t {
                            assert(bs.subrange(i as int, i + sb.len() + 1)[t as int] == sb[
                                t as int]);
                            assert(bs[i + t] == sb[t as int]);
                            assert(spec_is_b64_byte(sb[t as int]));
                        }
                        assert(sb =~= r.unwrap().0@);
                    }
                }
                return r;
            }
        }
        proof {
            assert forall|sb: Seq<u8>| !sig_matches_at(bs, i as int, sb) by {
                if sig_matches_at(bs, i as int, sb) {
                    let t = acc@.len();
                    assert(sb.len() >= t);
                    if sb.len() == t {
                        assert(bs.subrange(i as int, i + sb.len() + 1)[t as int] == 34);
                        assert(bs[i + t] == 34);
                    } else {
                        assert(bs.subrange(i as int, i + sb.len() + 1)[t as int] == sb[t as int]);
                        assert(bs[i + t] == sb[t as int]);
                        assert(spec_is_b64_byte(sb[t as int]));
                    }
                }
            }
        }
        return None;
    }
}

/// Splitting a known subrange of `s` into its two parts.
proof fn lemma_split_piece(s: Seq<u8>, off: int, a: Seq<u8>, b: Seq<u8>)
    requires
        0 <= off,
        off + a.len() + b.len() <= s.len(),
        s.subrange(off, off + a.len() + b.len()) == a + b,
    ensures
        s.subrange(off, off + a.len()) == a,
        s.subrange(off + a.len(), off + a.len() + b.len()) == b,
{
    let t = s.subrange(off, off + a.len() + b.len());
    assert(t.len() == a.len() + b.len());
    assert((a + b).len() == a.len() + b.len());
    assert(s.subrange(off, off + a.len()) =~= a) by {
        assert forall|j: int| 0 <= j < a.len() implies s.subrange(off, off + a.len())[j] == a[j]
            by {
            assert(t[j] == s[off + j]);
            assert(t[j] == (a + b)[j]);
        }
    }
    assert(s.subrange(off + a.len(), off + a.len() + b.len()) =~= b) by {
        assert forall|j: int|
            0 <= j < b.len() implies s.subrange(off + a.len(), off + a.len() + b.len())[j]
            == b[j] by {
            assert(t[a.len() + j] == s[off + a.len() + j]);
            assert(t[a.len() + j] == (a + b)[a.len() + j]);
        }
    }
}

/// Splitting a known prefix of `s` into its body and final part.
proof fn lemma_split_prefix(s: Seq<u8>, end: int, a: Seq<u8>, b: Seq<u8>)
    requires
        0 <= end <= s.len(),
        end == a.len() + b.len(),
        s.subrange(0, end) == a + b,
    ensures
        s.subrange(0, end - b.len()) == a,
        s.subrange(end - b.len(), end) == b,
{
    let t = s.subrange(0, end);
    assert((a + b).len() == a.len() + b.len());
    assert(s.subrange(0, end - b.len()) =~= a) by {
        assert forall|j: int| 0 <= j < a.len() implies s.subrange(0, end - b.len())[j] == a[j]
            by {
            assert(t[j] == s[j]);
            assert(t[j] == (a + b)[j]);
        }
    }
    assert(s.subrange(end - b.len(), end) =~= b) by {
        assert forall|j: int| 0 <= j < b.len() implies s.subrange(end - b.len(), end)[j] == b[j]
            by {
            assert(t[a.len() + j] == s[a.len() + j]);
            assert(t[a.len() + j] == (a + b)[a.len() + j]);
        }
    }
}

/// Two adjacent known subranges of `s` joined into one.
proof fn lemma_join_pieces(s: Seq<u8>, x: int, y: int, z: int, a: Seq<u8>, b: Seq<u8>)
    requires
        0 <= x <= y <= z <= s.len(),
        s.subrange(x, y) == a,
        s.subrange(y, z) == b,
    ensures
        s.subrange(x, z) == a + b,
{
    assert(y - x == a.len() && z - y == b.len());
    assert(s.subrange(x, z) =~= a + b) by {
        assert forall|j: int| 0 <= j < z - x implies s.subrange(x, z)[j] == (a + b)[j] by {
            if j < a.len() {
                assert(s.subrange(x, y)[j] == s[x + j]);
            } else {
                assert(s.subrange(y, z)[j - a.len()] == s[x + j]);
            }
        }
    }
}

/// Where each piece of a well-formed envelope's wire bytes stands.
pub proof fn lemma_wire_decompose(m: MsgModel, bytes: Seq<u8>)
    requires
        wf_model(m),
        bytes == wire_of(m),
    ensures
        ({
            let sb = bytes_of_chars(m.signature);
            let c_end: int = 12 + list_rep(m.content).len() as int + 1;
            let n_end: int = c_end + 10 + list_rep(m.nonce).len() + 1;
            let s_start: int = n_end + 14;
            let s_end: int = s_start + sb.len() + 1;
            &&& bytes.len() == s_end + 1
            &&& bytes.subrange(0, 12) == lit_open()
            &&& list_matches_at(bytes, 12, m.content)
            &&& bytes.subrange(c_end as int, c_end + 10) == lit_nonce()
            &&& list_matches_at(bytes, c_end + 10, m.nonce)
            &&& bytes.subrange(n_end as int, n_end + 14) == lit_signature()
            &&& sig_matches_at(bytes, s_start as int, sb)
            &&& bytes[s_end as int] == 125
        }),
{
    let sb = bytes_of_chars(m.signature);
    let lc = list_rep(m.content);
    let ln = list_rep(m.nonce);
    let p1 = lit_open();
    let p2 = p1 + lc;
    let p3 = p2 + seq![93u8];
    let p4 = p3 + lit_nonce();
    let p5 = p4 + ln;
    let p6 = p5 + seq![93u8];
    let p7 = p6 + lit_signature();
    let p8 = p7 + sb;
    let whole = p8 + lit_close();
    assert(bytes.subrange(0, bytes.len() as int) =~= whole);
    lemma_split_prefix(bytes, whole.len() as int, p8, lit_close());
    lemma_split_prefix(bytes, p8.len() as int, p7, sb);
    lemma_split_prefix(bytes, p7.len() as int, p6, lit_signature());
    lemma_split_prefix(bytes, p6.len() as int, p5, seq![93u8]);
    lemma_split_prefix(bytes, p5.len() as int, p4, ln);
    lemma_split_prefix(bytes, p4.len() as int, p3, lit_nonce());
    lemma_split_prefix(bytes, p3.len() as int, p2, seq![93u8]);
    lemma_split_prefix(bytes, p2.len() as int, p1, lc);
    let c_end: int = 12 + lc.len() as int + 1;
    let n_end: int = c_end + 10 + ln.len() + 1;
    let s_start: int = n_end + 14;
    let s_end: int = s_start + sb.len() + 1;
    lemma_join_pieces(bytes, 12, 12 + lc.len() as int, c_end, lc, seq![93u8]);
    lemma_join_pieces(bytes, c_end + 10, c_end + 10 + ln.len() as int, n_end, ln, seq![93u8]);
    assert(bytes[s_end] == 125 && bytes[s_end - 1] == 34) by {
        assert(bytes.subrange(p8.len() as int, whole.len() as int) == lit_close());
        assert(bytes.subrange(p8.len() as int, whole.len() as int)[0] == bytes[s_end - 1]);
        assert(bytes.subrange(p8.len() as int, whole.len() as int)[1] == bytes[s_end]);
    }
    assert(bytes.subrange(s_end - 1, s_end) =~= seq![34u8]);
    lemma_join_pieces(bytes, s_start, s_end - 1, s_end, sb, seq![34u8]);
    lemma_b64_chars_to_bytes(m.signature);
}

/// A known prefix of `s` grows by the piece that follows it.
proof fn lemma_extend_prefix(s: Seq<u8>, off: int, p: Seq<u8>, q: Seq<u8>)
    requires
        0 <= off,
        off + q.len() <= s.len(),
        s.subrange(0, off) == p,
        s.subrange(off, off + q.len()) == q,
    ensures
        s.subrange(0, off + q.len()) == p + q,
{
    assert(p.len() == off);
    assert(s.subrange(0, off + q.len()) =~= p + q) by {
        assert forall|j: int|
            #![trigger s.subrange(0, off + q.len())[j]]
            0 <= j < off + q.len() implies s.subrange(0, off + q.len())[j] == (p + q)[j] by {
            if j < off {
                assert(s.subrange(0, off)[j] == s[j]);
            } else {
                assert(s.subrange(off, off + q.len())[j - off] == s[j]);
            }
        }
    }
}

/// The consumed pieces of a list region extend a known prefix.
proof fn lemma_assemble_list(
    bs: Seq<u8>,
    a: int,
    b: int,
    pref: Seq<u8>,
    lit: Seq<u8>,
    l: Seq<u8>,
)
    requires
        0 <= a,
        a + lit.len() <= b,
        b == a + lit.len() + list_rep(l).len() + 1,
        b <= bs.len(),
        bs.subrange(0, a) == pref,
        bs.subrange(a, a + lit.len()) == lit,
        bs.subrange(a + lit.len(), b) == list_rep(l) + seq![93u8],
    ensures
        bs.subrange(0, b) == pref + lit + list_rep(l) + seq![93u8],
{
    let lr = list_rep(l);
    let mid = a + lit.len();
    lemma_split_piece(bs, mid, lr, seq![93u8]);
    lemma_extend_prefix(bs, a, pref, lit);
    lemma_extend_prefix(bs, mid, pref + lit, lr);
    assert(bs.subrange(b - 1, b) =~= seq![93u8]) by {
        assert(bs.subrange(mid + lr.len() as int, b)[0] == bs[b - 1]);
    }
    lemma_extend_prefix(bs, b - 1, pref + lit + lr, seq![93u8]);
}

/// The consumed signature region and the closing brace extend a known
/// prefix to the whole wire.
proof fn lemma_assemble_sig(bs: Seq<u8>, a: int, b: int, pref: Seq<u8>, sb: Seq<u8>)
    requires
        0 <= a,
        a + 14 <= b,
        b == a + 14 + sb.len() + 1,
        b + 1 == bs.len(),
        bs.subrange(0, a) == pref,
        bs.subrange(a, a + 14) == lit_signature(),
        bs.subrange(a + 14, b) == sb + seq![34u8],
        bs[b] == 125,
    ensures
        bs == pref + lit_signature() + sb + lit_close(),
{
    let mid = a + 14;
    lemma_split_piece(bs, mid, sb, seq![34u8]);
    lemma_extend_prefix(bs, a, pref, lit_signature());
    lemma_extend_prefix(bs, mid, pref + lit_signature(), sb);
    assert(bs.subrange(b - 1, b + 1) =~= lit_close()) by {
        assert(bs.subrange(mid + sb.len() as int, b)[0] == bs[b - 1]);
    }
    lemma_extend_prefix(bs, b - 1, pref + lit_signature() + sb, lit_close());
    assert(bs.subrange(0, b + 1) =~= bs);
}


/// Wire bytes reassembled from the pieces the parser consumed.
proof fn lemma_wire_assemble(
    bs: Seq<u8>,
    p0: int,
    p1: int,
    p2: int,
    p3: int,
    p4: int,
    p5: int,
    c: Seq<u8>,
    n: Seq<u8>,
    sb: Seq<u8>,
)
    requires
        p0 == 12,
        bs.subrange(0, 12) == lit_open(),
        p1 == p0 + list_rep(c).len() + 1,
        p1 <= bs.len(),
        bs.subrange(p0, p1) == list_rep(c) + seq![93u8],
        p2 == p1 + 10,
        p2 <= bs.len(),
        bs.subrange(p1, p2) == lit_nonce(),
        p3 == p2 + list_rep(n).len() + 1,
        p3 <= bs.len(),
        bs.subrange(p2, p3) == list_rep(n) + seq![93u8],
        p4 == p3 + 14,
        p4 <= bs.len(),
        bs.subrange(p3, p4) == lit_signature(),
        p5 == p4 + sb.len() + 1,
        p5 < bs.len(),
        bs.subrange(p4, p5) == sb + seq![34u8],
        forall|k: int| 0 <= k < sb.len() ==> spec_is_b64_byte(#[trigger] sb[k]),
        bs[p5] == 125,
        p5 + 1 == bs.len(),
    ensures
        bs == wire_of(MsgModel { content: c, nonce: n, signature: chars_of_bytes(sb) }),
{
    lemma_b64_bytes_to_chars(sb);
    assert(bs.subrange(0, 0) =~= Seq::<u8>::empty());
    lemma_assemble_list(bs, 0, p1, Seq::<u8>::empty(), lit_open(), c);
    assert(Seq::<u8>::empty() + lit_open() + list_rep(c) + seq![93u8] =~= lit_open() + list_rep(
        c,
    ) + seq![93u8]);
    lemma_assemble_list(
        bs,
        p1,
        p3,
        lit_open() + list_rep(c) + seq![93u8],
        lit_nonce(),
        n,
    );
    lemma_assemble_sig(
        bs,
        p3,
        p5,
        lit_open() + list_rep(c) + seq![93u8] + lit_nonce() + list_rep(n) + seq![93u8],
        sb,
    );
    assert(bytes_of_chars(chars_of_bytes(sb)) == sb);
}

/// Reads the three parts of an envelope out of its exact wire bytes:
/// the ciphertext list, the nonce list, and the signature's ASCII
/// bytes.  Exactly the wire renderings of well-formed envelopes are
/// accepted, except that the nonce list's length is left to the
/// caller to check.
#[verifier::rlimit(100)]
pub fn parse_wire(bytes: &Vec<u8>) -> (r: Option<(Vec<u8>, Vec<u8>, Vec<u8>)>)
    ensures
        r matches Some(t) ==> bytes@ == wire_of(
            MsgModel {
                content: t.0@,
                nonce: t.1@,
                signature: chars_of_bytes(t.2@),
            },
        ) && (forall|k: int| 0 <= k < t.2@.len() ==> spec_is_b64_char(
            #[trigger] chars_of_bytes(t.2@)[k],
        )),
        forall|m: MsgModel|
            wf_model(m) && bytes@ == wire_of(m) ==> (r matches Some(t) && t.0@ == m.content
                && t.1@ == m.nonce && chars_of_bytes(t.2@) == m.signature),
{
    let ghost bs = bytes@;
    let len = bytes.len();
    let open_pat = lit_open_vec();
    let p0 = match match_lit(bytes, 0, &open_pat) {
        Some(j) => j,
        None => {
            proof {
                assert forall|m: MsgModel| !(wf_model(m) && bs == wire_of(m)) by {
                    if wf_model(m) && bs == wire_of(m) {
                        lemma_wire_decompose(m, bs);
                    }
                }
            }
            return None;
        },
    };
    let content = match parse_list(bytes, p0) {
        Some(p) => p,
        None => {
            proof {
                assert forall|m: MsgModel| !(wf_model(m) && bs == wire_of(m)) by {
                    if wf_model(m) && bs == wire_of(m) {
                        lemma_wire_decompose(m, bs);
                    }
                }
            }
            return None;
        },
    };
    let (content_vec, p1) = content;
    let nonce_pat = lit_nonce_vec();
    let p2 = match match_lit(bytes, p1, &nonce_pat) {
        Some(j) => j,
        None => {
            proof {
                assert forall|m: MsgModel| !(wf_model(m) && bs == wire_of(m)) by {
                    if wf_model(m) && bs == wire_of(m) {
                        lemma_wire_decompose(m, bs);
                    }
                }
            }
            return None;
        },
    };
    let nonce = match parse_list(bytes, p2) {
        Some(p) => p,
        None => {
            proof {
                assert forall|m: MsgModel| !(wf_model(m) && bs == wire_of(m)) by {
                    if wf_model(m) && bs == wire_of(m) {
                        lemma_wire_decompose(m, bs);
                    }
                }
            }
            return None;
        },
    };
    let (nonce_vec, p3) = nonce;
    let sig_pat = lit_signature_vec();
    let p4 = match match_lit(bytes, p3, &sig_pat) {
        Some(j) => j,
        None => {
            proof {
                assert forall|m: MsgModel| !(wf_model(m) && bs == wire_of(m)) by {
                    if wf_model(m) && bs == wire_of(m) {
                        lemma_wire_decompose(m, bs);
                    }
                }
            }
            return None;
        },
    };
    let sig = match parse_sig(bytes, p4) {
        Some(p) => p,
        None => {
            proof {
                assert forall|m: MsgModel| !(wf_model(m) && bs == wire_of(m)) by {
                    if wf_model(m) && bs == wire_of(m) {
                        lemma_wire_decompose(m, bs);
                    }
                }
            }
            return None;
        },
    };
    let (sig_vec, p5) = sig;
    if p5 < len && bytes[p5] == 125 && p5 + 1 == len {
        let r = Some((content_vec, nonce_vec, sig_vec));
        proof {
            lemma_b64_bytes_to_chars(sig_vec@);
            lemma_wire_assemble(
                bs,
                p0 as int,
                p1 as int,
                p2 as int,
                p3 as int,
                p4 as int,
                p5 as int,
                content_vec@,
                nonce_vec@,
                sig_vec@,
            );
            assert forall|m: MsgModel|
                wf_model(m) && bs == wire_of(m) implies content_vec@ == m.content && nonce_vec@
                == m.nonce && chars_of_bytes(sig_vec@) == m.signature by {
                lemma_wire_decompose(m, bs);
                lemma_b64_chars_to_bytes(m.signature);
            }
        }
        r
    } else {
        proof {
            assert forall|m: MsgModel| !(wf_model(m) && bs == wire_of(m)) by {
                if wf_model(m) && bs == wire_of(m) {
                    lemma_wire_decompose(m, bs);
                }
            }
        }
        None
    }
}

/// At most one byte list has its bracketed rendering standing at a
/// given position.
proof fn lemma_list_matches_unique(bytes: Seq<u8>, i: int, l1: Seq<u8>, l2: Seq<u8>)
    requires
        list_matches_at(bytes, i, l1),
        list_matches_at(bytes, i, l2),
    ensures
        l1 == l2,
    decreases l1.len(),
{
    let t1 = bytes.subrange(i, i + list_rep(l1).len() + 1);
    let t2 = bytes.subrange(i, i + list_rep(l2).len() + 1);
    assert(t1[0] == bytes[i] && t2[0] == bytes[i]);
    if l1.len() == 0 {
        assert(bytes[i] == 93);
        if l2.len() > 0 {
            crate::numeric::lemma_dec_u8_digits(l2[0]);
            assert(t2[0] == spec_dec_u8(l2[0])[0]);
        }
        assert(l1 =~= l2);
    } else if l2.len() == 0 {
        assert(bytes[i] == 93);
        crate::numeric::lemma_dec_u8_digits(l1[0]);
        assert(t1[0] == spec_dec_u8(l1[0])[0]);
    } else {
        lemma_head_dec_at(bytes, i, l1);
        lemma_head_dec_at(bytes, i, l2);
        crate::numeric::lemma_dec_u8_at_unique(bytes, i, l1[0], l2[0]);
        let rep = spec_dec_u8(l1[0]);
        let after = i + rep.len() as int;
        if l1.len() == 1 && l2.len() == 1 {
            assert(l1 =~= l2);
        } else if l1.len() == 1 {
            assert(list_rep(l1) == rep);
            assert(t1[rep.len() as int] == 93 && bytes[after] == 93);
            assert(list_rep(l2) == spec_dec_u8(l2[0]) + seq![44u8] + list_rep(l2.drop_first()));
            assert(t2[rep.len() as int] == 44 && bytes[after] == 44);
        } else if l2.len() == 1 {
            assert(list_rep(l2) == spec_dec_u8(l2[0]));
            assert(spec_dec_u8(l2[0]) == rep);
            assert(t2[rep.len() as int] == (list_rep(l2) + seq![93u8])[rep.len() as int]);
            assert(t2[rep.len() as int] == 93 && bytes[after] == 93);
            assert(list_rep(l1) == rep + seq![44u8] + list_rep(l1.drop_first()));
            assert(t1[rep.len() as int] == 44 && bytes[after] == 44);
        } else {
            lemma_tail_matches(bytes, i, l1);
            lemma_tail_matches(bytes, i, l2);
            assert(spec_dec_u8(l2[0]) == rep);
            lemma_list_matches_unique(bytes, after + 1, l1.drop_first(), l2.drop_first());
            assert(l1.drop_first() =~= l2.drop_first());
            assert(l1.len() == l2.len());
            assert(l1 =~= l2) by {
                assert forall|k: int| 0 <= k < l1.len() implies l1[k] == l2[k] by {
                    if k > 0 {
                        assert(l1.drop_first()[k - 1] == l1[k]);
                        assert(l2.drop_first()[k - 1] == l2[k]);
                    }
                }
            }
        }
    }
}

/// The first element of a non-empty matched list stands at the list's
/// position as a canonical decimal rendering.
proof fn lemma_head_dec_at(bytes: Seq<u8>, i: int, l: Seq<u8>)
    requires
        list_matches_at(bytes, i, l),
        l.len() > 0,
    ensures
        spec_dec_u8_at(bytes, i, l[0]),
{
    let t = bytes.subrange(i, i + list_rep(l).len() + 1);
    let rep = spec_dec_u8(l[0]);
    crate::numeric::lemma_dec_u8_digits(l[0]);
    assert(bytes.subrange(i, i + rep.len()) =~= rep) by {
        assert forall|k: int| 0 <= k < rep.len() implies bytes.subrange(i, i + rep.len())[k]
            == rep[k] by {
            assert(t[k] == bytes[i + k]);
            assert(t[k] == (list_rep(l) + seq![93u8])[k]);
            if l.len() > 1 {
                assert(list_rep(l)[k] == (rep + seq![44u8] + list_rep(l.drop_first()))[k]);
            }
        }
    }
    assert(t[rep.len() as int] == bytes[i + rep.len()]);
    if l.len() == 1 {
        assert(bytes[i + rep.len()] == 93);
    } else {
        assert(list_rep(l) == rep + seq![44u8] + list_rep(l.drop_first()));
        assert(bytes[i + rep.len()] == 44);
    }
}

/// After a matched list's first element and its comma, the rest of
/// the list matches.
proof fn lemma_tail_matches(bytes: Seq<u8>, i: int, l: Seq<u8>)
    requires
        list_matches_at(bytes, i, l),
        l.len() >= 2,
    ensures
        list_matches_at(bytes, i + spec_dec_u8(l[0]).len() + 1, l.drop_first()),
{
    let t = bytes.subrange(i, i + list_rep(l).len() + 1);
    let rep = spec_dec_u8(l[0]);
    let rest = l.drop_first();
    let after = i + rep.len() as int + 1;
    assert(list_rep(l) == rep + seq![44u8] + list_rep(rest));
    assert(bytes.subrange(after, after + list_rep(rest).len() + 1) =~= list_rep(rest)
        + seq![93u8]) by {
        assert forall|k: int|
            0 <= k < list_rep(rest).len() + 1 implies bytes.subrange(
            after,
            after + list_rep(rest).len() + 1,
        )[k] == (list_rep(rest) + seq![93u8])[k] by {
            assert(t[k + rep.len() + 1] == bytes[after + k]);
            assert(t[k + rep.len() + 1] == (list_rep(l) + seq![93u8])[k + rep.len() + 1]);
            assert((rep + seq![44u8] + list_rep(rest))[k + rep.len() + 1] == list_rep(rest)[k]
                || k == list_rep(rest).len());
        }
    }
}

/// At most one run of base64 bytes stands quoted at a given position.
proof fn lemma_sig_matches_unique(bytes: Seq<u8>, i: int, s1: Seq<u8>, s2: Seq<u8>)
    requires
        sig_matches_at(bytes, i, s1),
        sig_matches_at(bytes, i, s2),
    ensures
        s1 == s2,
{
    let t1 = bytes.subrange(i, i + s1.len() + 1);
    let t2 = bytes.subrange(i, i + s2.len() + 1);
    if s1.len() < s2.len() {
        assert(t1[s1.len() as int] == bytes[i + s1.len()] && t1[s1.len() as int] == 34);
        assert(t2[s1.len() as int] == bytes[i + s1.len()] && t2[s1.len() as int] == s2[s1.len() as int]);
        assert(spec_is_b64_byte(s2[s1.len() as int]));
        assert(false);
    } else if s2.len() < s1.len() {
        assert(t2[s2.len() as int] == bytes[i + s2.len()] && t2[s2.len() as int] == 34);
        assert(t1[s2.len() as int] == bytes[i + s2.len()] && t1[s2.len() as int] == s1[s2.len() as int]);
        assert(spec_is_b64_byte(s1[s2.len() as int]));
        assert(false);
    } else {
        assert(s1 =~= s2) by {
            assert forall|k: int| 0 <= k < s1.len() implies s1[k] == s2[k] by {
                assert(t1[k] == bytes[i + k] && t1[k] == s1[k]);
                assert(t2[k] == bytes[i + k] && t2[k] == s2[k]);
            }
        }
    }
}

/// The wire format is unambiguous: two well-formed envelopes with the
/// same wire bytes are the same envelope.  Together with the contracts
/// of `serialize`, `deserialize` and `decrypt` this pins the envelope
/// round trip down: what is parsed back from a serialized envelope is
/// that envelope, and it decrypts to the plaintext it was built from.
pub proof fn lemma_wire_unambiguous(m1: MsgModel, m2: MsgModel)
    requires
        wf_model(m1),
        wf_model(m2),
        wire_of(m1) == wire_of(m2),
    ensures
        m1 == m2,
{
    let bytes = wire_of(m1);
    lemma_wire_decompose(m1, bytes);
    lemma_wire_decompose(m2, bytes);
    lemma_list_matches_unique(bytes, 12, m1.content, m2.content);
    let c_end: int = 12 + list_rep(m1.content).len() as int + 1;
    lemma_list_matches_unique(bytes, c_end + 10, m1.nonce, m2.nonce);
    let n_end: int = c_end + 10 + list_rep(m1.nonce).len() + 1;
    let s_start: int = n_end + 14;
    lemma_sig_matches_unique(
        bytes,
        s_start,
        bytes_of_chars(m1.signature),
        bytes_of_chars(m2.signature),
    );
    lemma_b64_chars_to_bytes(m1.signature);
    lemma_b64_chars_to_bytes(m2.signature);
    assert(m1.signature == m2.signature);
}

} // verus!
