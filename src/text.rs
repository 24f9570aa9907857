use vstd::prelude::*;
use vstd::utf8::*;

verus! {

/// Bytes below 128 form valid UTF-8, and each decodes to the character of the same number.
pub proof fn lemma_ascii_utf8(b: Seq<u8>)
    requires
        forall|i: int| 0 <= i < b.len() ==> #[trigger] b[i] < 128,
    ensures
        valid_utf8(b),
        decode_utf8(b).len() == b.len(),
        forall|i: int| 0 <= i < b.len() ==> #[trigger] decode_utf8(b)[i] == ((b[i] as u32) as char),
    decreases b.len(),
{
    if b.len() != 0 {
        let b0 = b[0];
        assert(b0 < 128);
        assert(b0 < 128 ==> (b0 & 0x7f) == b0) by (bit_vector);
        let rest = b.subrange(1, b.len() as int);
        assert(pop_first_scalar(b) =~= rest);
        lemma_ascii_utf8(rest);
        let d = decode_utf8(b);
        assert(d == seq![(b0 as u32) as char] + decode_utf8(rest));
        assert forall|i: int| 0 <= i < b.len() implies #[trigger] d[i] == ((b[i] as u32) as char) by {
            if i > 0 {
                assert(rest[i - 1] == b[i]);
            }
        }
    }
}

/// Relies on `String::from_utf8`: it succeeds exactly on valid UTF-8, and the string holds the
/// characters that the bytes encode.
#[verifier::external_body]
pub(crate) fn string_from_utf8(v: Vec<u8>) -> (r: Option<String>)
    ensures
        r is Some <==> valid_utf8(v@),
        r matches Some(s) ==> s@ == decode_utf8(v@),
{
    String::from_utf8(v).ok()
}

} // verus!
