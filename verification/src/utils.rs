use vstd::prelude::*;

verus! {

/// What `String::from_utf8_lossy` makes of a byte sequence.
pub uninterp spec fn lossy_of(bytes: Seq<u8>) -> Seq<char>;

/// Relies on ring::rand::generate over a fresh ring::rand::SystemRandom:
/// 64 bytes drawn from the operating system's secure random source.
/// Nothing is promised of their values.
#[verifier::external_body]
pub fn generate_random_array() -> (r: [u8; 64]) {
    let random = ring::rand::SystemRandom::new();
    let random_array: [u8; 64] = ring::rand::generate(&random).unwrap().expose();
    random_array
}

/// Relies on String::from_utf8_lossy: the result is a function of the
/// bytes alone, and bytes that are valid UTF-8 come back as exactly
/// their decoding.
#[verifier::external_body]
fn utf8_lossy(bytes: &[u8]) -> (r: String)
    ensures
        r@ == lossy_of(bytes@),
        vstd::utf8::valid_utf8(bytes@) ==> r@ == vstd::utf8::decode_utf8(bytes@),
{
    String::from_utf8_lossy(bytes).to_string()
}

/// The string read out of the first `number_of_bytes` bytes of a
/// receive buffer.
pub fn get_content_from_buffer(buffer: &[u8], number_of_bytes: usize) -> (r: String)
    requires
        number_of_bytes <= buffer@.len(),
    ensures
        r@ == lossy_of(buffer@.take(number_of_bytes as int)),
        vstd::utf8::valid_utf8(buffer@.take(number_of_bytes as int)) ==> r@
            == vstd::utf8::decode_utf8(buffer@.take(number_of_bytes as int)),
{
    let sub = vstd::slice::slice_subrange(buffer, 0, number_of_bytes);
    proof {
        assert(sub@ =~= buffer@.take(number_of_bytes as int));
    }
    utf8_lossy(sub)
}

} // verus!
