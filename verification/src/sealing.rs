//! Authenticated encryption of stored submissions with ChaCha20-Poly1305.
//!
//! Each form has its own random 256-bit key. The `i`-th submission to a form
//! is sealed under the 96-bit nonce that holds `i` in little-endian order,
//! with no associated data, so no nonce is used twice under one key.
use chacha20poly1305::aead::{Aead, KeyInit};
use vstd::prelude::*;

verus! {

/// The number of bytes in a nonce.
pub const NONCE_LEN: usize = 12;

/// The number of bytes in a key.
pub const KEY_LEN: usize = 32;

/// The number of bytes of the tag that follows the ciphertext.
pub const TAG_LEN: usize = 16;

/// The longest plaintext the cipher seals: its keystream starts at block 1
/// and offers `u32::MAX - 1` blocks of 64 bytes.
pub const MAX_SEALABLE_LEN: u64 = 274877906816;

/// Whether a plaintext of `len` bytes fits in the cipher's keystream.
pub open spec fn sealable(len: nat) -> bool {
    len <= MAX_SEALABLE_LEN
}

/// The ChaCha20-Poly1305 sealing (ciphertext followed by tag) of
/// `plaintext` under `key` and `nonce`, with no associated data.
pub uninterp spec fn sealed(key: Seq<u8>, nonce: Seq<u8>, plaintext: Seq<u8>) -> Seq<u8>;

/// The `n` lowest base-256 digits of `x`, lowest first.
pub open spec fn le_digits(x: nat, n: nat) -> Seq<u8>
    decreases n,
{
    if n == 0 {
        Seq::empty()
    } else {
        seq![(x % 256) as u8] + le_digits(x / 256, (n - 1) as nat)
    }
}

/// The nonce of the `i`-th submission to a form: `i` in little-endian order
/// over twelve bytes.
pub open spec fn nonce_of(i: nat) -> Seq<u8> {
    le_digits(i, NONCE_LEN as nat)
}

/// `ChaCha20Poly1305::encrypt` under `Key::from_slice(key)` and
/// `Nonce::from_slice(nonce)` (both of which panic on other lengths), with no
/// associated data, on a plaintext that fits in the keystream (on a longer
/// one it fails or panics): the sealing, a function of the key, the nonce
/// and the plaintext alone, which is the ciphertext, as long as the
/// plaintext, followed by the 16-byte tag.
#[verifier::external_body]
pub(crate) fn seal(key: &[u8], nonce: &[u8], plaintext: &[u8]) -> (c: Vec<u8>)
    requires
        key@.len() == KEY_LEN,
        nonce@.len() == NONCE_LEN,
        sealable(plaintext@.len()),
    ensures
        c@ == sealed(key@, nonce@, plaintext@),
        c@.len() == plaintext@.len() + TAG_LEN,
{
    let cipher = chacha20poly1305::ChaCha20Poly1305::new(chacha20poly1305::Key::from_slice(key));
    cipher.encrypt(chacha20poly1305::Nonce::from_slice(nonce), plaintext).unwrap()
}

/// The bytes of an optional byte vector.
pub open spec fn bytes_view(r: Option<Vec<u8>>) -> Option<Seq<u8>> {
    match r {
        Some(v) => Some(v@),
        None => None,
    }
}

/// `out` is what opening `bytes` under `key` and `nonce` gives: the
/// plaintext when `bytes` is its sealing, and only such a plaintext.
pub open spec fn opens_sealing(key: Seq<u8>, nonce: Seq<u8>, bytes: Seq<u8>, out: Option<Seq<u8>>) -> bool {
    &&& forall|p: Seq<u8>|
        sealable(p.len()) && bytes == #[trigger] sealed(key, nonce, p) ==> out == Some(p)
    &&& out matches Some(v) ==> sealable(v.len()) && bytes == sealed(key, nonce, v) && bytes.len() == v.len()
        + TAG_LEN
}

/// `ChaCha20Poly1305::decrypt` under `Key::from_slice(key)` and
/// `Nonce::from_slice(nonce)`, with no associated data, on bytes no longer
/// than a sealing of the longest sealable plaintext (on longer ones whose
/// tag checks, applying the keystream panics). It gives back the
/// plaintext of a sealing made under the same key and nonce, and it accepts
/// only such sealings: the tag is checked over the ciphertext, whose
/// keystream is the one `encrypt` applies.
#[verifier::external_body]
pub(crate) fn open(key: &[u8], nonce: &[u8], sealed_bytes: &[u8]) -> (r: Option<Vec<u8>>)
    requires
        key@.len() == KEY_LEN,
        nonce@.len() == NONCE_LEN,
        sealed_bytes@.len() <= MAX_SEALABLE_LEN + TAG_LEN,
    ensures
        opens_sealing(key@, nonce@, sealed_bytes@, bytes_view(r)),
{
    let cipher = chacha20poly1305::ChaCha20Poly1305::new(chacha20poly1305::Key::from_slice(key));
    cipher.decrypt(chacha20poly1305::Nonce::from_slice(nonce), sealed_bytes).ok()
}

/// The nonce of the `i`-th submission to a form.
pub fn nonce_for(i: usize) -> (nonce: Vec<u8>)
    ensures
        nonce@ == nonce_of(i as nat),
        nonce@.len() == NONCE_LEN,
{
    let mut out: Vec<u8> = Vec::new();
    let mut x: u64 = i as u64;
    let mut k: usize = 0;
    while k < NONCE_LEN
        invariant
            k <= NONCE_LEN,
            out@.len() == k,
            out@ + le_digits(x as nat, (NONCE_LEN - k) as nat) == nonce_of(i as nat),
        decreases NONCE_LEN - k,
    {
        let ghost rest = le_digits(x as nat, (NONCE_LEN - k) as nat);
        assert(rest == seq![(x % 256) as u8] + le_digits((x / 256) as nat, (NONCE_LEN - k - 1) as nat));
        out.push((x % 256) as u8);
        x = x / 256;
        k = k + 1;
        assert(out@ + le_digits(x as nat, (NONCE_LEN - k) as nat) =~= nonce_of(i as nat));
    }
    assert(out@ + le_digits(x as nat, 0) =~= out@);
    out
}

/// `256` to the power `n`.
pub open spec fn pow256(n: nat) -> nat
    decreases n,
{
    if n == 0 {
        1
    } else {
        256 * pow256((n - 1) as nat)
    }
}

proof fn lemma_le_digits_len(x: nat, n: nat)
    ensures
        le_digits(x, n).len() == n,
    decreases n,
{
    if n > 0 {
        lemma_le_digits_len(x / 256, (n - 1) as nat);
    }
}

proof fn lemma_le_digits_injective(x: nat, y: nat, n: nat)
    requires
        le_digits(x, n) == le_digits(y, n),
        x < pow256(n),
        y < pow256(n),
    ensures
        x == y,
    decreases n,
{
    if n == 0 {
    } else {
        let dx = le_digits(x, n);
        let dy = le_digits(y, n);
        assert(dx[0] == dy[0]);
        assert((x % 256) as u8 == (y % 256) as u8);
        assert(x % 256 == y % 256);
        lemma_le_digits_len(x / 256, (n - 1) as nat);
        lemma_le_digits_len(y / 256, (n - 1) as nat);
        assert(le_digits(x / 256, (n - 1) as nat) =~= dx.subrange(1, dx.len() as int));
        assert(le_digits(y / 256, (n - 1) as nat) =~= dy.subrange(1, dy.len() as int));
        let p = pow256((n - 1) as nat);
        assert(pow256(n) == 256 * p);
        assert(x / 256 < p) by (nonlinear_arith)
            requires
                x < 256 * p,
        ;
        assert(y / 256 < p) by (nonlinear_arith)
            requires
                y < 256 * p,
        ;
        lemma_le_digits_injective(x / 256, y / 256, (n - 1) as nat);
        assert(x == 256 * (x / 256) + x % 256);
        assert(y == 256 * (y / 256) + y % 256);
    }
}

/// Different submissions to a form are sealed under different nonces.
pub proof fn lemma_nonces_distinct(i: nat, j: nat)
    requires
        i != j,
        i <= u64::MAX,
        j <= u64::MAX,
    ensures
        nonce_of(i) != nonce_of(j),
        nonce_of(i).len() == NONCE_LEN,
{
    lemma_le_digits_len(i, NONCE_LEN as nat);
    assert(pow256(12) == 0x1_0000_0000_0000_0000_0000_0000) by {
        reveal_with_fuel(pow256, 13);
    }
    if nonce_of(i) == nonce_of(j) {
        lemma_le_digits_injective(i, j, NONCE_LEN as nat);
    }
}

} // verus!
