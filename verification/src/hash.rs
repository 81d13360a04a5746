//! SHA-256 digests and their lowercase hexadecimal rendering.

use sha2::Digest;
use vstd::prelude::*;
use crate::text::push_char;

verus! {

/// The SHA-256 digest of `data`, as computed by the `sha2` crate.
pub uninterp spec fn sha256_digest(data: Seq<u8>) -> Seq<u8>;

/// Computes SHA-256 with `sha2::Sha256::digest`. The contract claims that
/// the result is the named digest of the input and is 32 bytes long; the
/// digest's bits themselves are not described.
#[verifier::external_body]
pub(crate) fn sha256(data: &[u8]) -> (d: Vec<u8>)
    ensures
        d@ == sha256_digest(data@),
        d@.len() == 32,
{
    sha2::Sha256::digest(data).to_vec()
}

/// Lowercase hexadecimal digit for a nibble.
pub open spec fn hex_digit(v: u8) -> char {
    if v < 10 {
        ((v + 48) as u8) as char
    } else {
        ((v - 10 + 97) as u8) as char
    }
}

/// Lowercase hex rendering: two digits per byte, high nibble first.
pub open spec fn hex_spec(bytes: Seq<u8>) -> Seq<char>
    decreases bytes.len(),
{
    if bytes.len() == 0 {
        Seq::empty()
    } else {
        hex_spec(bytes.drop_last()) + seq![
            hex_digit(bytes.last() / 16),
            hex_digit(bytes.last() % 16),
        ]
    }
}

/// The SHA-256 digest of `data` in lowercase hex.
pub open spec fn sha256_hex_spec(data: Seq<u8>) -> Seq<char> {
    hex_spec(sha256_digest(data))
}

fn hex_nibble(v: u8) -> (c: char)
    requires
        v < 16,
    ensures
        c == hex_digit(v),
{
    if v < 10 {
        (v + 48) as char
    } else {
        (v - 10 + 97) as char
    }
}

/// Lowercase hexadecimal rendering of `bytes`.
pub fn hex_lower(bytes: &[u8]) -> (s: String)
    ensures
        s@ == hex_spec(bytes@),
        s@.len() == 2 * bytes@.len(),
{
    let mut out = String::new();
    let mut i: usize = 0;
    assert(bytes@.take(0) =~= Seq::<u8>::empty());
    while i < bytes.len()
        invariant
            i <= bytes@.len(),
            out@ == hex_spec(bytes@.take(i as int)),
            out@.len() == 2 * i,
        decreases bytes@.len() - i,
    {
        let b = bytes[i];
        push_char(&mut out, hex_nibble(b / 16));
        push_char(&mut out, hex_nibble(b % 16));
        assert(bytes@.take(i + 1).drop_last() =~= bytes@.take(i as int));
        i = i + 1;
    }
    assert(bytes@.take(bytes@.len() as int) =~= bytes@);
    out
}

/// The SHA-256 of `data` as 64 lowercase hex digits.
pub fn sha256_hex(data: &[u8]) -> (s: String)
    ensures
        s@ == sha256_hex_spec(data@),
        s@.len() == 64,
{
    let d = sha256(data);
    hex_lower(d.as_slice())
}

/// Distinct byte strings render as distinct hex strings, so comparing hex
/// digests compares the digests themselves.
pub proof fn lemma_hex_injective(a: Seq<u8>, b: Seq<u8>)
    requires
        hex_spec(a) == hex_spec(b),
    ensures
        a == b,
    decreases a.len(),
{
    lemma_hex_len(a);
    lemma_hex_len(b);
    if a.len() > 0 {
        let ha = hex_spec(a);
        let k = ha.len() - 2;
        assert(ha[k] == hex_digit(a.last() / 16));
        assert(hex_spec(b)[k] == hex_digit(b.last() / 16));
        assert(ha[k + 1] == hex_digit(a.last() % 16));
        assert(hex_spec(b)[k + 1] == hex_digit(b.last() % 16));
        assert(a.last() == b.last());
        assert(hex_spec(a.drop_last()) =~= ha.take(k));
        assert(hex_spec(b.drop_last()) =~= hex_spec(b).take(k));
        lemma_hex_injective(a.drop_last(), b.drop_last());
        assert(a =~= a.drop_last().push(a.last()));
        assert(b =~= b.drop_last().push(b.last()));
    }
}

/// Hex rendering doubles the length.
pub proof fn lemma_hex_len(a: Seq<u8>)
    ensures
        hex_spec(a).len() == 2 * a.len(),
    decreases a.len(),
{
    if a.len() > 0 {
        lemma_hex_len(a.drop_last());
    }
}

} // verus!
