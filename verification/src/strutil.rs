//! String/byte conversions: recovering strings from stored bytes, and the
//! UTF-8 validity facts needed to reason about byte-level trimming of
//! string data.

use vstd::prelude::*;
use vstd::utf8::{
    valid_utf8, decode_utf8, is_char_boundary, is_char_boundary_iff_not_is_continuation_byte,
    valid_utf8_split, valid_utf8_concat,
};
use crate::byteseq::{is_ascii_ws, spec_trim, spec_trim_start, spec_trim_end};

verus! {

/// Relies on `String::from_utf8_lossy`: when the input is valid UTF-8 the
/// original string is returned unchanged.
#[verifier::external_body]
pub(crate) fn bytes_to_string(b: &[u8]) -> (r: String)
    ensures
        valid_utf8(b@) ==> r@ == decode_utf8(b@),
{
    String::from_utf8_lossy(b).into_owned()
}

/// Dropping an ASCII head byte of a valid UTF-8 sequence leaves it valid.
pub proof fn lemma_valid_utf8_drop_first_ascii(s: Seq<u8>)
    requires
        valid_utf8(s),
        s.len() > 0,
        s[0] <= 0x7f,
    ensures
        valid_utf8(s.drop_first()),
{
    assert(vstd::utf8::is_leading_byte_width_1(s[0]));
    assert(vstd::utf8::length_of_first_scalar(s) == 1);
    assert(vstd::utf8::pop_first_scalar(s) =~= s.drop_first());
}

/// Dropping an ASCII last byte of a valid UTF-8 sequence leaves it valid.
pub proof fn lemma_valid_utf8_drop_last_ascii(s: Seq<u8>)
    requires
        valid_utf8(s),
        s.len() > 0,
        s[s.len() - 1] <= 0x7f,
    ensures
        valid_utf8(s.drop_last()),
{
    let n = s.len() as int;
    is_char_boundary_iff_not_is_continuation_byte(s, n - 1);
    assert(is_char_boundary(s, n - 1));
    valid_utf8_split(s, n - 1);
    assert(s.subrange(0, n - 1) =~= s.drop_last());
}

/// Trimming leading ASCII whitespace preserves UTF-8 validity.
pub proof fn lemma_trim_start_valid_utf8(s: Seq<u8>)
    requires
        valid_utf8(s),
    ensures
        valid_utf8(spec_trim_start(s)),
    decreases s.len(),
{
    if s.len() > 0 && is_ascii_ws(s[0]) {
        lemma_valid_utf8_drop_first_ascii(s);
        lemma_trim_start_valid_utf8(s.drop_first());
    }
}

/// Trimming trailing ASCII whitespace preserves UTF-8 validity.
pub proof fn lemma_trim_end_valid_utf8(s: Seq<u8>)
    requires
        valid_utf8(s),
    ensures
        valid_utf8(spec_trim_end(s)),
    decreases s.len(),
{
    if s.len() > 0 && is_ascii_ws(s[s.len() - 1]) {
        lemma_valid_utf8_drop_last_ascii(s);
        lemma_trim_end_valid_utf8(s.drop_last());
    }
}

/// Trimming ASCII whitespace at both ends preserves UTF-8 validity.
pub proof fn lemma_trim_valid_utf8(s: Seq<u8>)
    requires
        valid_utf8(s),
    ensures
        valid_utf8(spec_trim(s)),
{
    lemma_trim_start_valid_utf8(s);
    lemma_trim_end_valid_utf8(spec_trim_start(s));
}

/// A sequence of ASCII bytes is valid UTF-8.
pub proof fn lemma_ascii_bytes_valid_utf8(s: Seq<u8>)
    requires
        forall|i: int| 0 <= i < s.len() ==> (#[trigger] s[i]) <= 0x7f,
    ensures
        valid_utf8(s),
    decreases s.len(),
{
    if s.len() > 0 {
        assert(vstd::utf8::is_leading_byte_width_1(s[0]));
        assert(vstd::utf8::length_of_first_scalar(s) == 1);
        assert(vstd::utf8::pop_first_scalar(s) =~= s.drop_first());
        lemma_ascii_bytes_valid_utf8(s.drop_first());
    }
}

/// A single ASCII byte in front of a valid UTF-8 sequence leaves it valid.
pub proof fn lemma_ascii_prepend_valid_utf8(b: u8, s: Seq<u8>)
    requires
        valid_utf8(s),
        b <= 0x7f,
    ensures
        valid_utf8(seq![b] + s),
{
    let one = seq![b];
    assert(vstd::utf8::is_leading_byte_width_1(one[0]));
    assert(vstd::utf8::length_of_first_scalar(one) == 1);
    assert(b & 0x7f <= 0x7f) by (bit_vector);
    assert(vstd::utf8::valid_first_scalar(one));
    assert(vstd::utf8::pop_first_scalar(one) =~= Seq::<u8>::empty());
    assert(valid_utf8(vstd::utf8::pop_first_scalar(one)));
    assert(valid_utf8(one));
    valid_utf8_concat(one, s);
}

} // verus!
