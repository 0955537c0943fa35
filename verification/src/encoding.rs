//! Lowercase hexadecimal text, as produced by the `hex` crate.
use vstd::prelude::*;

verus! {

/// The lowercase hexadecimal digit for a value below sixteen.
pub open spec fn hex_digit(n: int) -> char {
    if n < 10 {
        (48 + n) as char
    } else {
        (87 + n) as char
    }
}

/// The lowercase hexadecimal text of a byte string: two digits per byte,
/// high nibble first.
pub open spec fn spec_hex(bytes: Seq<u8>) -> Seq<char>
    decreases bytes.len(),
{
    if bytes.len() == 0 {
        Seq::empty()
    } else {
        seq![hex_digit(bytes[0] as int / 16), hex_digit(bytes[0] as int % 16)] + spec_hex(bytes.drop_first())
    }
}

/// `hex::encode`: the lowercase hexadecimal text of `data`, two characters
/// per byte, high nibble first (the crate's `HEX_CHARS_LOWER` table indexed
/// by `byte >> 4` and `byte & 0x0F`).
#[verifier::external_body]
pub(crate) fn hex_encode(data: &[u8]) -> (text: String)
    ensures
        text@ == spec_hex(data@),
{
    hex::encode(data)
}

/// The hexadecimal text is twice as long as the bytes it encodes.
pub proof fn lemma_hex_len(bytes: Seq<u8>)
    ensures
        spec_hex(bytes).len() == 2 * bytes.len(),
    decreases bytes.len(),
{
    if bytes.len() > 0 {
        lemma_hex_len(bytes.drop_first());
    }
}

proof fn lemma_hex_digit_injective(a: int, b: int)
    requires
        0 <= a < 16,
        0 <= b < 16,
        hex_digit(a) == hex_digit(b),
    ensures
        a == b,
{
}

/// Different byte strings have different hexadecimal texts.
pub proof fn lemma_hex_injective(a: Seq<u8>, b: Seq<u8>)
    requires
        spec_hex(a) == spec_hex(b),
    ensures
        a == b,
    decreases a.len(),
{
    lemma_hex_len(a);
    lemma_hex_len(b);
    if a.len() > 0 {
        let ta = spec_hex(a);
        let tb = spec_hex(b);
        assert(ta[0] == tb[0]);
        assert(ta[1] == tb[1]);
        lemma_hex_digit_injective(a[0] as int / 16, b[0] as int / 16);
        lemma_hex_digit_injective(a[0] as int % 16, b[0] as int % 16);
        assert(a[0] == b[0]);
        assert(spec_hex(a.drop_first()) =~= ta.subrange(2, ta.len() as int));
        assert(spec_hex(b.drop_first()) =~= tb.subrange(2, tb.len() as int));
        lemma_hex_injective(a.drop_first(), b.drop_first());
        assert(a =~= seq![a[0]] + a.drop_first());
        assert(b =~= seq![b[0]] + b.drop_first());
    } else {
        assert(a =~= b);
    }
}

/// Whether two byte strings are equal.
pub(crate) fn bytes_equal(a: &[u8], b: &[u8]) -> (r: bool)
    ensures
        r == (a@ == b@),
{
    if a.len() != b.len() {
        return false;
    }
    let mut i: usize = 0;
    while i < a.len()
        invariant
            a@.len() == b@.len(),
            i <= a@.len(),
            forall|j: int| 0 <= j < i ==> a@[j] == b@[j],
        decreases a@.len() - i,
    {
        if a[i] != b[i] {
            return false;
        }
        i = i + 1;
    }
    assert(a@ =~= b@);
    true
}

} // verus!
