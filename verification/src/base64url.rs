//! Base64url (RFC 4648 section 5) without padding: three bytes become four
//! alphabet characters; a trailing one or two bytes become two or three.

use vstd::prelude::*;
use vstd::string::*;
use crate::text::push_char;

verus! {

/// The alphabet character (as a byte) of a 6-bit value.
pub open spec fn alphabet_byte(v: u32) -> u8 {
    if v < 26 {
        (v + 65) as u8
    } else if v < 52 {
        (v - 26 + 97) as u8
    } else if v < 62 {
        (v - 52 + 48) as u8
    } else if v == 62 {
        45u8
    } else {
        95u8
    }
}

/// The 6-bit value of an alphabet byte, or `None` outside the alphabet.
pub open spec fn alphabet_value(c: u8) -> Option<u32> {
    if 65 <= c <= 90 {
        Some((c - 65) as u32)
    } else if 97 <= c <= 122 {
        Some((c - 97 + 26) as u32)
    } else if 48 <= c <= 57 {
        Some((c - 48 + 52) as u32)
    } else if c == 45 {
        Some(62u32)
    } else if c == 95 {
        Some(63u32)
    } else {
        None
    }
}

/// The 24-bit group of up to three bytes (missing bytes count as zero).
pub open spec fn group_of(b0: u8, b1: u8, b2: u8) -> u32 {
    ((b0 as u32) << 16u32) | ((b1 as u32) << 8u32) | (b2 as u32)
}

/// Encoding of one chunk of one to three bytes.
pub open spec fn encode_chunk(chunk: Seq<u8>) -> Seq<u8> {
    let b1 = if chunk.len() > 1 {
        chunk[1]
    } else {
        0u8
    };
    let b2 = if chunk.len() > 2 {
        chunk[2]
    } else {
        0u8
    };
    let n = group_of(chunk[0], b1, b2);
    let first = seq![alphabet_byte((n >> 18u32) & 63u32), alphabet_byte((n >> 12u32) & 63u32)];
    let third = if chunk.len() > 1 {
        seq![alphabet_byte((n >> 6u32) & 63u32)]
    } else {
        Seq::empty()
    };
    let fourth = if chunk.len() > 2 {
        seq![alphabet_byte(n & 63u32)]
    } else {
        Seq::empty()
    };
    first + third + fourth
}

/// Base64url encoding of `data`, chunk by chunk of three bytes.
pub open spec fn encode_spec(data: Seq<u8>) -> Seq<u8>
    decreases data.len(),
{
    if data.len() == 0 {
        Seq::empty()
    } else if data.len() <= 3 {
        encode_chunk(data)
    } else {
        encode_chunk(data.take(3)) + encode_spec(data.skip(3))
    }
}

/// The 24-bit group of a chunk of two to four alphabet bytes, or `None` when
/// one of them is outside the alphabet.
pub open spec fn chunk_group(chunk: Seq<u8>) -> Option<u32>
    decreases chunk.len(),
{
    if chunk.len() == 0 {
        Some(0u32)
    } else {
        match (chunk_group(chunk.drop_last()), alphabet_value(chunk.last())) {
            (Some(n), Some(v)) => Some(n | (v << ((18 - 6 * (chunk.len() - 1)) as u32))),
            _ => None,
        }
    }
}

/// Bytes decoded from one chunk of two to four characters.
pub open spec fn decode_chunk(chunk: Seq<u8>) -> Option<Seq<u8>> {
    if chunk.len() < 2 {
        None
    } else {
        match chunk_group(chunk) {
            None => None,
            Some(n) => {
                let first = seq![(n >> 16u32) as u8];
                let second = if chunk.len() > 2 {
                    seq![(n >> 8u32) as u8]
                } else {
                    Seq::empty()
                };
                let third = if chunk.len() > 3 {
                    seq![n as u8]
                } else {
                    Seq::empty()
                };
                Some(first + second + third)
            },
        }
    }
}

/// Base64url decoding of `text`, chunk by chunk of four characters: `None`
/// when a chunk is a single character or holds a byte outside the alphabet.
pub open spec fn decode_spec(text: Seq<u8>) -> Option<Seq<u8>>
    decreases text.len(),
{
    if text.len() == 0 {
        Some(Seq::empty())
    } else if text.len() <= 4 {
        decode_chunk(text)
    } else {
        match (decode_chunk(text.take(4)), decode_spec(text.skip(4))) {
            (Some(a), Some(b)) => Some(a + b),
            _ => None,
        }
    }
}

/// Characters of an all-ASCII byte string.
pub open spec fn ascii_chars(bytes: Seq<u8>) -> Seq<char> {
    bytes.map_values(|b: u8| b as char)
}

fn alphabet_char(v: u32) -> (c: u8)
    requires
        v < 64,
    ensures
        c == alphabet_byte(v),
{
    if v < 26 {
        (v + 65) as u8
    } else if v < 52 {
        (v - 26 + 97) as u8
    } else if v < 62 {
        (v - 52 + 48) as u8
    } else if v == 62 {
        45u8
    } else {
        95u8
    }
}

fn value_of(c: u8) -> (r: Option<u32>)
    ensures
        r == alphabet_value(c),
{
    if 65 <= c && c <= 90 {
        Some((c - 65) as u32)
    } else if 97 <= c && c <= 122 {
        Some((c - 97 + 26) as u32)
    } else if 48 <= c && c <= 57 {
        Some((c - 48 + 52) as u32)
    } else if c == 45 {
        Some(62u32)
    } else if c == 95 {
        Some(63u32)
    } else {
        None
    }
}

proof fn lemma_encode_split(data: Seq<u8>, i: int)
    requires
        0 <= i <= data.len(),
        i % 3 == 0,
    ensures
        encode_spec(data) == encode_spec(data.take(i)) + encode_spec(data.skip(i)),
    decreases i,
{
    if i == 0 {
        assert(data.take(0) =~= Seq::<u8>::empty());
        assert(data.skip(0) =~= data);
    } else {
        lemma_encode_split(data, i - 3);
        let a = data.take(i - 3);
        let rest = data.skip(i - 3);
        // encode(rest) == encode_chunk(rest.take(3)) + encode(rest.skip(3)) when rest is long
        assert(rest.take(3) =~= data.subrange(i - 3, i));
        assert(rest.skip(3) =~= data.skip(i));
        if rest.len() > 3 {
            assert(encode_spec(rest) == encode_chunk(rest.take(3)) + encode_spec(rest.skip(3)));
        } else {
            assert(rest.take(3) =~= rest);
            assert(data.skip(i) =~= Seq::<u8>::empty());
        }
        // encode(take(i)) == encode(take(i-3)) + encode_chunk(subrange)
        lemma_encode_append_chunk(a, data.subrange(i - 3, i));
        assert(data.take(i) =~= a + data.subrange(i - 3, i));
    }
}

proof fn lemma_encode_append_chunk(a: Seq<u8>, chunk: Seq<u8>)
    requires
        a.len() % 3 == 0,
        chunk.len() == 3,
    ensures
        encode_spec(a + chunk) == encode_spec(a) + encode_chunk(chunk),
    decreases a.len(),
{
    if a.len() == 0 {
        assert(a + chunk =~= chunk);
        assert(encode_spec(a) =~= Seq::<u8>::empty());
        assert(encode_spec(a) + encode_chunk(chunk) =~= encode_chunk(chunk));
    } else {
        let s = a + chunk;
        assert(s.take(3) =~= a.take(3));
        assert(s.skip(3) =~= a.skip(3) + chunk);
        lemma_encode_append_chunk(a.skip(3), chunk);
        if a.len() == 3 {
            assert(a.take(3) =~= a);
            assert(a.skip(3) =~= Seq::<u8>::empty());
            assert(a.skip(3) + chunk =~= chunk);
        }
    }
}

/// Base64url encoding of `data`, without padding.
pub fn encode(data: &[u8]) -> (out: String)
    ensures
        out@ == ascii_chars(encode_spec(data@)),
{
    let mut bytes: Vec<u8> = Vec::new();
    let n_total = data.len();
    let mut i: usize = 0;
    while i < n_total
        invariant
            n_total == data@.len(),
            i <= n_total,
            i % 3 == 0 || i == n_total,
            bytes@ == encode_spec(data@.take(i as int)),
        decreases n_total - i,
    {
        let len = if n_total - i >= 3 {
            3
        } else {
            n_total - i
        };
        let b0 = data[i];
        let b1 = if len > 1 {
            data[i + 1]
        } else {
            0u8
        };
        let b2 = if len > 2 {
            data[i + 2]
        } else {
            0u8
        };
        let n: u32 = ((b0 as u32) << 16u32) | ((b1 as u32) << 8u32) | (b2 as u32);
        assert(n == group_of(b0, b1, b2));
        assert(((n >> 18u32) & 63u32) < 64 && ((n >> 12u32) & 63u32) < 64 && ((n >> 6u32) & 63u32)
            < 64 && (n & 63u32) < 64) by (bit_vector);
        let ghost chunk = data@.subrange(i as int, i + len);
        let ghost before = bytes@;
        bytes.push(alphabet_char((n >> 18u32) & 63u32));
        bytes.push(alphabet_char((n >> 12u32) & 63u32));
        if len > 1 {
            bytes.push(alphabet_char((n >> 6u32) & 63u32));
        }
        if len > 2 {
            bytes.push(alphabet_char(n & 63u32));
        }
        proof {
            assert(chunk[0] == b0);
            assert(bytes@ =~= before + encode_chunk(chunk));
            if len == 3 {
                lemma_encode_append_chunk(data@.take(i as int), chunk);
                assert(data@.take(i + 3) =~= data@.take(i as int) + chunk);
            } else {
                lemma_encode_split(data@, i as int);
                assert(data@.skip(i as int) =~= chunk);
                assert(data@.take(i + len) =~= data@);
            }
        }
        i = i + len;
    }
    assert(data@.take(n_total as int) =~= data@);
    let mut out = String::new();
    let mut k: usize = 0;
    while k < bytes.len()
        invariant
            k <= bytes@.len(),
            out@ == ascii_chars(bytes@.take(k as int)),
        decreases bytes@.len() - k,
    {
        push_char(&mut out, bytes[k] as char);
        assert(ascii_chars(bytes@.take(k + 1)) =~= ascii_chars(bytes@.take(k as int)).push(
            bytes@[k as int] as char,
        ));
        k = k + 1;
    }
    assert(bytes@.take(bytes@.len() as int) =~= bytes@);
    out
}

/// Once a prefix of a chunk holds a byte outside the alphabet, so does the
/// whole chunk.
proof fn lemma_group_none_extends(s: Seq<u8>, k: int)
    requires
        0 <= k <= s.len(),
        chunk_group(s.take(k)) is None,
    ensures
        chunk_group(s) is None,
    decreases s.len() - k,
{
    if k < s.len() {
        assert(s.take(k + 1).drop_last() =~= s.take(k));
        lemma_group_none_extends(s, k + 1);
    } else {
        assert(s.take(k) =~= s);
    }
}

/// Prepends `a` to a decoded result.
pub open spec fn prepend(a: Seq<u8>, r: Option<Seq<u8>>) -> Option<Seq<u8>> {
    match r {
        Some(b) => Some(a + b),
        None => None,
    }
}

/// Decodes the chunk of `len` bytes at `i`.
fn decode_chunk_at(bytes: &[u8], i: usize, len: usize) -> (r: Option<Vec<u8>>)
    requires
        2 <= len <= 4,
        i + len <= bytes@.len(),
    ensures
        match decode_chunk(bytes@.subrange(i as int, i + len)) {
            Some(d) => r matches Some(v) && v@ == d,
            None => r is None,
        },
{
    let ghost chunk = bytes@.subrange(i as int, i + len);
    let total = bytes.len();
    let mut n: u32 = 0;
    let mut j: usize = 0;
    assert(chunk.take(0) =~= Seq::<u8>::empty());
    while j < len
        invariant
            total == bytes@.len(),
            2 <= len <= 4,
            i + len <= bytes@.len(),
            chunk == bytes@.subrange(i as int, i + len),
            j <= len,
            chunk_group(chunk.take(j as int)) == Some(n),
            n < 0x100_0000,
        decreases len - j,
    {
        assert(chunk.take(j + 1).drop_last() =~= chunk.take(j as int));
        assert(chunk.take(j + 1).last() == bytes@[i + j]);
        match value_of(bytes[i + j]) {
            None => {
                proof {
                    lemma_group_none_extends(chunk, j + 1);
                }
                return None;
            },
            Some(v) => {
                let shift: u32 = (18 - 6 * j) as u32;
                assert(v < 64);
                assert(shift <= 18);
                assert(n < 0x100_0000 && v < 64 && shift <= 18 ==> (n | (v << shift)) < 0x100_0000)
                    by (bit_vector);
                n = n | (v << shift);
            },
        }
        j = j + 1;
    }
    assert(chunk.take(len as int) =~= chunk);
    let mut out: Vec<u8> = Vec::new();
    out.push((n >> 16u32) as u8);
    if len > 2 {
        out.push((n >> 8u32) as u8);
    }
    if len > 3 {
        out.push(n as u8);
    }
    proof {
        let first = seq![(n >> 16u32) as u8];
        let second = if len > 2 {
            seq![(n >> 8u32) as u8]
        } else {
            Seq::<u8>::empty()
        };
        let third = if len > 3 {
            seq![n as u8]
        } else {
            Seq::<u8>::empty()
        };
        assert(out@ =~= first + second + third);
    }
    Some(out)
}

/// Base64url decoding of `text`: `None` when a four-character chunk holds a
/// character outside the alphabet or the text ends in a lone character.
pub fn decode(text: &str) -> (r: Option<Vec<u8>>)
    ensures
        match decode_spec(text.spec_bytes()) {
            Some(d) => r matches Some(v) && v@ == d,
            None => r is None,
        },
{
    let bytes = text.as_bytes();
    let total = bytes.len();
    let mut out: Vec<u8> = Vec::new();
    let mut i: usize = 0;
    assert(bytes@.skip(0) =~= bytes@);
    assert(out@ + Seq::<u8>::empty() =~= out@);
    while i < total
        invariant
            total == bytes@.len(),
            bytes@ == text.spec_bytes(),
            i <= total,
            decode_spec(bytes@) == prepend(out@, decode_spec(bytes@.skip(i as int))),
        decreases total - i,
    {
        let rest = total - i;
        let len = if rest >= 4 {
            4
        } else {
            rest
        };
        let ghost tail = bytes@.skip(i as int);
        assert(tail.take(len as int) =~= bytes@.subrange(i as int, i + len));
        if len < 2 {
            assert(tail =~= bytes@.subrange(i as int, i + len));
            assert(decode_spec(tail) is None);
            assert(bytes@ == text.spec_bytes());
            return None;
        }
        match decode_chunk_at(bytes, i, len) {
            None => {
                proof {
                    if tail.len() <= 4 {
                        assert(tail =~= bytes@.subrange(i as int, i + len));
                    }
                    assert(decode_spec(tail) is None);
                    assert(bytes@ == text.spec_bytes());
                }
                return None;
            },
            Some(chunk) => {
                let ghost before = out@;
                let ghost c = chunk@;
                let mut chunk = chunk;
                out.append(&mut chunk);
                proof {
                    assert(out@ == before + c);
                    if tail.len() <= 4 {
                        assert(tail =~= bytes@.subrange(i as int, i + len));
                        assert(bytes@.skip(i + len) =~= Seq::<u8>::empty());
                        assert(before + c + Seq::<u8>::empty() =~= before + c);
                    } else {
                        assert(tail.skip(4) =~= bytes@.skip(i + 4));
                        match decode_spec(bytes@.skip(i + 4)) {
                            Some(b) => {
                                assert(before + (c + b) =~= before + c + b);
                            },
                            None => {},
                        }
                    }
                }
            },
        }
        i = i + len;
    }
    proof {
        assert(bytes@.skip(total as int) =~= Seq::<u8>::empty());
        assert(out@ + Seq::<u8>::empty() =~= out@);
    }
    Some(out)
}

proof fn lemma_alphabet_round_trip(v: u32)
    requires
        v < 64,
    ensures
        alphabet_value(alphabet_byte(v)) == Some(v),
{
}

proof fn lemma_chunk_round_trip(chunk: Seq<u8>)
    requires
        1 <= chunk.len() <= 3,
    ensures
        decode_chunk(encode_chunk(chunk)) == Some(chunk),
{
    let b0 = chunk[0];
    let b1 = if chunk.len() > 1 {
        chunk[1]
    } else {
        0u8
    };
    let b2 = if chunk.len() > 2 {
        chunk[2]
    } else {
        0u8
    };
    let n = group_of(b0, b1, b2);
    let v0 = (n >> 18u32) & 63u32;
    let v1 = (n >> 12u32) & 63u32;
    let v2 = (n >> 6u32) & 63u32;
    let v3 = n & 63u32;
    assert(v0 < 64 && v1 < 64 && v2 < 64 && v3 < 64) by (bit_vector)
        requires
            v0 == (n >> 18u32) & 63u32,
            v1 == (n >> 12u32) & 63u32,
            v2 == (n >> 6u32) & 63u32,
            v3 == n & 63u32,
    ;
    lemma_alphabet_round_trip(v0);
    lemma_alphabet_round_trip(v1);
    lemma_alphabet_round_trip(v2);
    lemma_alphabet_round_trip(v3);
    let e = encode_chunk(chunk);
    assert(e.len() == chunk.len() + 1);
    assert(e.take(1).drop_last() =~= Seq::<u8>::empty());
    assert(e.take(2).drop_last() =~= e.take(1));
    assert(chunk_group(Seq::<u8>::empty()) == Some(0u32));
    assert(e[0] == alphabet_byte(v0));
    assert(e[1] == alphabet_byte(v1));
    assert(e.take(1).last() == e[0]);
    assert(e.take(2).last() == e[1]);
    assert(chunk_group(e.take(1)) == Some(0u32 | (v0 << 18u32)));
    assert(chunk_group(e.take(2)) == Some((0u32 | (v0 << 18u32)) | (v1 << 12u32)));
    if chunk.len() == 1 {
        assert(e.take(2) =~= e);
        let m = (0u32 | (v0 << 18u32)) | (v1 << 12u32);
        assert((m >> 16u32) as u8 == b0) by (bit_vector)
            requires
                n == ((b0 as u32) << 16u32) | ((0u8 as u32) << 8u32) | (0u8 as u32),
                v0 == (n >> 18u32) & 63u32,
                v1 == (n >> 12u32) & 63u32,
                m == (0u32 | (v0 << 18u32)) | (v1 << 12u32),
        ;
        assert(decode_chunk(e).unwrap() =~= chunk);
    } else if chunk.len() == 2 {
        assert(e.take(3) =~= e);
        assert(e.take(3).drop_last() =~= e.take(2));
        assert(e[2] == alphabet_byte(v2));
        assert(e.take(3).last() == e[2]);
        assert(chunk_group(e.take(3)) == Some(((0u32 | (v0 << 18u32)) | (v1 << 12u32)) | (v2 << 6u32)));
        let m = ((0u32 | (v0 << 18u32)) | (v1 << 12u32)) | (v2 << 6u32);
        assert((m >> 16u32) as u8 == b0 && (m >> 8u32) as u8 == b1) by (bit_vector)
            requires
                n == ((b0 as u32) << 16u32) | ((b1 as u32) << 8u32) | (0u8 as u32),
                v0 == (n >> 18u32) & 63u32,
                v1 == (n >> 12u32) & 63u32,
                v2 == (n >> 6u32) & 63u32,
                m == ((0u32 | (v0 << 18u32)) | (v1 << 12u32)) | (v2 << 6u32),
        ;
        assert(decode_chunk(e).unwrap() =~= chunk);
    } else {
        assert(e.take(4) =~= e);
        assert(e.take(3).drop_last() =~= e.take(2));
        assert(e.take(4).drop_last() =~= e.take(3));
        assert(e[2] == alphabet_byte(v2));
        assert(e[3] == alphabet_byte(v3));
        assert(e.take(3).last() == e[2]);
        assert(e.take(4).last() == e[3]);
        assert(chunk_group(e.take(3)) == Some(((0u32 | (v0 << 18u32)) | (v1 << 12u32)) | (v2 << 6u32)));
        assert(chunk_group(e.take(4)) == Some((((0u32 | (v0 << 18u32)) | (v1 << 12u32)) | (v2 << 6u32)) | (v3 << 0u32)));
        let m = (((0u32 | (v0 << 18u32)) | (v1 << 12u32)) | (v2 << 6u32)) | (v3 << 0u32);
        assert((m >> 16u32) as u8 == b0 && (m >> 8u32) as u8 == b1 && m as u8 == b2)
            by (bit_vector)
            requires
                n == ((b0 as u32) << 16u32) | ((b1 as u32) << 8u32) | (b2 as u32),
                v0 == (n >> 18u32) & 63u32,
                v1 == (n >> 12u32) & 63u32,
                v2 == (n >> 6u32) & 63u32,
                v3 == n & 63u32,
                m == (((0u32 | (v0 << 18u32)) | (v1 << 12u32)) | (v2 << 6u32)) | (v3 << 0u32),
        ;
        assert(decode_chunk(e).unwrap() =~= chunk);
    }
}

/// Decoding an encoding gives the bytes back: base64url round-trips every
/// byte string.
pub proof fn lemma_decode_encode_round_trip(data: Seq<u8>)
    ensures
        decode_spec(encode_spec(data)) == Some(data),
    decreases data.len(),
{
    if data.len() == 0 {
    } else if data.len() <= 3 {
        lemma_chunk_round_trip(data);
        let e = encode_chunk(data);
        assert(e.len() == data.len() + 1);
    } else {
        let c = data.take(3);
        let rest = data.skip(3);
        lemma_chunk_round_trip(c);
        lemma_decode_encode_round_trip(rest);
        let e = encode_spec(data);
        let ec = encode_chunk(c);
        let er = encode_spec(rest);
        assert(ec.len() == 4);
        lemma_encode_nonempty(rest);
        assert(e.take(4) =~= ec);
        assert(e.skip(4) =~= er);
        assert(c + rest =~= data);
    }
}

proof fn lemma_encode_nonempty(data: Seq<u8>)
    requires
        data.len() > 0,
    ensures
        encode_spec(data).len() >= 2,
    decreases data.len(),
{
    if data.len() > 3 {
        lemma_encode_nonempty(data.skip(3));
    }
}

/// The encoding is all ASCII, so its bytes are its characters.
pub proof fn lemma_encoding_is_ascii(data: Seq<u8>)
    ensures
        forall|i: int| 0 <= i < encode_spec(data).len() ==> #[trigger] encode_spec(data)[i] < 128,
    decreases data.len(),
{
    if data.len() > 3 {
        lemma_encoding_is_ascii(data.skip(3));
        let c = encode_chunk(data.take(3));
        assert forall|i: int| 0 <= i < encode_spec(data).len() implies #[trigger] encode_spec(
            data,
        )[i] < 128 by {
            if i < c.len() {
                assert(encode_spec(data)[i] == c[i]);
            } else {
                assert(encode_spec(data)[i] == encode_spec(data.skip(3))[i - c.len()]);
            }
        }
    }
}

} // verus!
