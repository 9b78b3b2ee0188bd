//! The bridge between strings and their UTF-8 bytes. The codec modules
//! state their contracts over `vstd::utf8::encode_utf8` of a string's
//! characters; this module turns bytes back into a `String` and proves
//! that sequences of ASCII bytes are valid UTF-8.

use vstd::prelude::*;
use vstd::utf8::*;

verus! {

/// True when every byte of the sequence is an ASCII byte.
pub open spec fn all_ascii_bytes(t: Seq<u8>) -> bool {
    forall|i: int| 0 <= i < t.len() ==> #[trigger] t[i] < 128
}

/// Relies on `String::from_utf8`: it succeeds exactly on valid UTF-8
/// input, and the string it returns is the one whose UTF-8 encoding is
/// that input.
#[verifier::external_body]
pub(crate) fn string_from_utf8(v: Vec<u8>) -> (r: Option<String>)
    ensures
        match r {
            Some(s) => encode_utf8(s@) == v@,
            None => !valid_utf8(v@),
        },
{
    String::from_utf8(v).ok()
}

/// A sequence of ASCII bytes is a valid UTF-8 encoding.
pub proof fn lemma_ascii_bytes_valid_utf8(t: Seq<u8>)
    requires
        all_ascii_bytes(t),
    ensures
        valid_utf8(t),
{
    broadcast use utf8_byte_ranges_bitwise;

    assert forall|i: int| 0 <= i < t.len() implies is_leading_byte_width_1(t[i]) by {
        let b = t[i];
        assert(b & 0x80 == 0) by (bit_vector)
            requires
                b < 128,
        ;
    }
    assert(t.subrange(0, 0) =~= Seq::<u8>::empty());
    assert(partial_valid_utf8(t, 0));
    partial_valid_utf8_extend_ascii_block(t, 0, t.len() as int);
    assert(t.subrange(0, t.len() as int) =~= t);
}

/// Turn a sequence of ASCII bytes into the string they spell.
pub(crate) fn ascii_to_string(v: Vec<u8>) -> (r: String)
    requires
        all_ascii_bytes(v@),
    ensures
        encode_utf8(r@) == v@,
{
    proof {
        lemma_ascii_bytes_valid_utf8(v@);
    }
    let ghost bytes = v@;
    match string_from_utf8(v) {
        Some(s) => s,
        None => {
            proof {
                assert(false);
            }
            String::new()
        },
    }
}

} // verus!
