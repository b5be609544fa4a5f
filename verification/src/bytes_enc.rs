//! Byte-level encoding primitives of the archive format: little-endian
//! integers, length-prefixed UTF-8 strings, and an optional string behind a
//! one-byte tag.  Every reader's contract has two sides: on success the
//! consumed bytes are exactly the encoding of the returned value, and on
//! failure no value's encoding starts at that position.

use vstd::prelude::*;

use crate::color::Rgb;
use crate::strutil::bytes_to_string;

verus! {

broadcast use vstd::string::group_string_axioms;

/// `e` occurs in `b` starting at `pos`.
pub open spec fn bytes_at(b: Seq<u8>, pos: int, e: Seq<u8>) -> bool {
    0 <= pos && pos + e.len() <= b.len() && b.subrange(pos, pos + e.len()) == e
}

/// Encoding of one byte.
pub open spec fn enc_u8(v: u8) -> Seq<u8> {
    seq![v]
}

/// Little-endian encoding of a 32-bit integer.
pub open spec fn enc_u32(v: u32) -> Seq<u8> {
    seq![
        (v % 256) as u8,
        ((v / 256) % 256) as u8,
        ((v / 65536) % 256) as u8,
        ((v / 16777216) % 256) as u8,
    ]
}

/// Little-endian encoding of a 64-bit integer as two 32-bit halves.
pub open spec fn enc_u64(v: u64) -> Seq<u8> {
    enc_u32((v % 0x1_0000_0000) as u32) + enc_u32((v / 0x1_0000_0000) as u32)
}

/// Encoding of a colour as its three channel bytes.
pub open spec fn enc_rgb(c: Rgb) -> Seq<u8> {
    seq![c.r, c.g, c.b]
}

/// A string fits the format when its UTF-8 form fits a 32-bit length field.
pub open spec fn str_ok(s: Seq<char>) -> bool {
    vstd::utf8::encode_utf8(s).len() < 0x1_0000_0000
}

/// Length-prefixed UTF-8 encoding of a string.
pub open spec fn enc_str(s: Seq<char>) -> Seq<u8> {
    enc_u32(vstd::utf8::encode_utf8(s).len() as u32) + vstd::utf8::encode_utf8(s)
}

/// Optional string behind a presence tag byte.
pub open spec fn enc_opt_str(s: Option<Seq<char>>) -> Seq<u8> {
    match s {
        None => seq![0u8],
        Some(t) => seq![1u8] + enc_str(t),
    }
}

pub open spec fn opt_str_ok(s: Option<Seq<char>>) -> bool {
    match s {
        None => true,
        Some(t) => str_ok(t),
    }
}

/// Reassembling the four little-endian bytes recovers the integer.
pub proof fn lemma_u32_round(v: u32)
    ensures
        (v % 256) + 256 * ((v / 256) % 256) + 65536 * ((v / 65536) % 256) + 16777216 * (v
            / 16777216) == v,
        (v / 16777216) % 256 == v / 16777216,
{
    assert((v % 256) + 256 * ((v / 256) % 256) + 65536 * ((v / 65536) % 256) + 16777216 * (v
        / 16777216) == v && (v / 16777216) % 256 == v / 16777216) by (bit_vector);
}

/// Any four bytes are the little-endian encoding of exactly the integer they
/// reassemble to.
pub proof fn lemma_u32_parts(b0: u8, b1: u8, b2: u8, b3: u8, v: u32)
    requires
        v == (b0 as int) + 256 * (b1 as int) + 65536 * (b2 as int) + 16777216 * (b3 as int),
    ensures
        v % 256 == b0 && (v / 256) % 256 == b1 && (v / 65536) % 256 == b2 && (v / 16777216) % 256
            == b3,
{
    assert(v % 256 == b0 && (v / 256) % 256 == b1 && (v / 65536) % 256 == b2 && (v / 16777216)
        % 256 == b3) by (bit_vector)
        requires
            v == (b0 as u32) + 256u32 * (b1 as u32) + 65536u32 * (b2 as u32) + 16777216u32 * (
            b3 as u32),
    ;
}

/// Two integers encoded at the same position are the same integer.
pub proof fn lemma_u32_at_unique(b: Seq<u8>, pos: int, v1: u32, v2: u32)
    requires
        bytes_at(b, pos, enc_u32(v1)),
        bytes_at(b, pos, enc_u32(v2)),
    ensures
        v1 == v2,
{
    assert(enc_u32(v1)[0] == b[pos] && enc_u32(v2)[0] == b[pos]);
    assert(enc_u32(v1)[1] == b[pos + 1] && enc_u32(v2)[1] == b[pos + 1]);
    assert(enc_u32(v1)[2] == b[pos + 2] && enc_u32(v2)[2] == b[pos + 2]);
    assert(enc_u32(v1)[3] == b[pos + 3] && enc_u32(v2)[3] == b[pos + 3]);
    lemma_u32_round(v1);
    lemma_u32_round(v2);
}

/// A string encoding at `pos` forces the length field and the UTF-8 segment
/// that follow `pos`.
pub proof fn lemma_str_enc_forces(b: Seq<u8>, pos: int, t: Seq<char>, n: u32)
    requires
        str_ok(t),
        bytes_at(b, pos, enc_str(t)),
        bytes_at(b, pos, enc_u32(n)),
    ensures
        vstd::utf8::encode_utf8(t).len() == n,
        pos + 4 + n <= b.len(),
        vstd::utf8::encode_utf8(t) == b.subrange(pos + 4, pos + 4 + n),
{
    let ut = vstd::utf8::encode_utf8(t);
    assert(bytes_at(b, pos, enc_u32(ut.len() as u32))) by {
        assert(b.subrange(pos, pos + 4) =~= enc_u32(ut.len() as u32)) by {
            assert forall|i: int| 0 <= i < 4 implies b[pos + i] == #[trigger] enc_u32(ut.len() as u32)[i] by {
                assert(b[pos + i] == b.subrange(pos, pos + enc_str(t).len())[i]);
                assert(enc_str(t)[i] == enc_u32(ut.len() as u32)[i]);
            }
        }
    }
    lemma_u32_at_unique(b, pos, n, ut.len() as u32);
    assert(ut =~= b.subrange(pos + 4, pos + 4 + n as int)) by {
        assert forall|i: int| 0 <= i < ut.len() implies ut[i] == b.subrange(
            pos + 4,
            pos + 4 + n as int,
        )[i] by {
            assert(enc_str(t)[4 + i] == ut[i]);
            assert(b.subrange(pos, pos + enc_str(t).len())[4 + i] == b[pos + 4 + i]);
        }
    }
}

/// Two strings encoded at the same position are the same string.
pub proof fn lemma_str_at_unique(b: Seq<u8>, pos: int, s1: Seq<char>, s2: Seq<char>)
    requires
        str_ok(s1),
        str_ok(s2),
        bytes_at(b, pos, enc_str(s1)),
        bytes_at(b, pos, enc_str(s2)),
    ensures
        s1 == s2,
{
    broadcast use vstd::utf8::encode_utf8_decode_utf8;

    let u1 = vstd::utf8::encode_utf8(s1);
    let n = u1.len() as u32;
    assert(bytes_at(b, pos, enc_u32(n))) by {
        assert(b.subrange(pos, pos + 4) =~= enc_u32(n)) by {
            assert forall|i: int| 0 <= i < 4 implies b[pos + i] == #[trigger] enc_u32(n)[i] by {
                assert(b[pos + i] == b.subrange(pos, pos + enc_str(s1).len())[i]);
                assert(enc_str(s1)[i] == enc_u32(n)[i]);
            }
        }
    }
    lemma_str_enc_forces(b, pos, s1, n);
    lemma_str_enc_forces(b, pos, s2, n);
    assert(vstd::utf8::decode_utf8(u1) == s1);
    assert(vstd::utf8::decode_utf8(vstd::utf8::encode_utf8(s2)) == s2);
}

/// Append a 32-bit integer, little endian.
pub fn push_u32(out: &mut Vec<u8>, v: u32)
    ensures
        final(out)@ == old(out)@ + enc_u32(v),
{
    out.push((v % 256) as u8);
    out.push(((v / 256) % 256) as u8);
    out.push(((v / 65536) % 256) as u8);
    out.push(((v / 16777216) % 256) as u8);
    proof {
        assert(out@ =~= old(out)@ + enc_u32(v));
    }
}

/// Append a 64-bit integer as two little-endian halves.
pub fn push_u64(out: &mut Vec<u8>, v: u64)
    ensures
        final(out)@ == old(out)@ + enc_u64(v),
{
    push_u32(out, (v % 0x1_0000_0000) as u32);
    push_u32(out, (v / 0x1_0000_0000) as u32);
    proof {
        assert(out@ =~= old(out)@ + enc_u64(v));
    }
}

/// Append a colour's three channel bytes.
pub fn push_rgb(out: &mut Vec<u8>, c: &Rgb)
    ensures
        final(out)@ == old(out)@ + enc_rgb(*c),
{
    out.push(c.r);
    out.push(c.g);
    out.push(c.b);
    proof {
        assert(out@ =~= old(out)@ + enc_rgb(*c));
    }
}

/// Append a length-prefixed UTF-8 string.
pub fn push_str(out: &mut Vec<u8>, s: &str)
    requires
        str_ok(s@),
    ensures
        final(out)@ == old(out)@ + enc_str(s@),
{
    let bytes = s.as_bytes_vec();
    push_u32(out, bytes.len() as u32);
    let mut i: usize = 0;
    let ghost mid = out@;
    while i < bytes.len()
        invariant
            0 <= i <= bytes@.len(),
            out@ == mid + bytes@.take(i as int),
        decreases bytes@.len() - i,
    {
        out.push(bytes[i]);
        i = i + 1;
        proof {
            assert(out@ =~= mid + bytes@.take(i as int));
        }
    }
    proof {
        assert(bytes@.take(bytes@.len() as int) =~= bytes@);
        assert(out@ =~= old(out)@ + enc_str(s@));
    }
}

/// Append an optional string behind its presence tag.
pub fn push_opt_str(out: &mut Vec<u8>, s: &Option<String>)
    requires
        match s {
            Some(t) => str_ok(t@),
            None => true,
        },
    ensures
        final(out)@ == old(out)@ + enc_opt_str(match s {
            Some(t) => Some(t@),
            None => None,
        }),
{
    match s {
        None => {
            out.push(0u8);
            proof {
                assert(out@ =~= old(out)@ + enc_opt_str(None));
            }
        },
        Some(t) => {
            out.push(1u8);
            push_str(out, t.as_str());
            proof {
                assert(out@ =~= old(out)@ + enc_opt_str(Some(t@)));
            }
        },
    }
}

/// Read one byte.
pub fn read_u8(buf: &Vec<u8>, pos: usize) -> (r: Option<(u8, usize)>)
    ensures
        match r {
            Some((v, end)) => end == pos + 1 && bytes_at(buf@, pos as int, enc_u8(v)),
            None => pos + 1 > buf@.len(),
        },
{
    if pos < buf.len() {
        let v = buf[pos];
        proof {
            assert(buf@.subrange(pos as int, pos + 1) =~= enc_u8(v));
        }
        Some((v, pos + 1))
    } else {
        None
    }
}

/// Read a little-endian 32-bit integer.
pub fn read_u32(buf: &Vec<u8>, pos: usize) -> (r: Option<(u32, usize)>)
    ensures
        match r {
            Some((v, end)) => end == pos + 4 && bytes_at(buf@, pos as int, enc_u32(v)),
            None => pos + 4 > buf@.len(),
        },
{
    if buf.len() >= 4 && pos <= buf.len() - 4 {
        let b0 = buf[pos] as u32;
        let b1 = buf[pos + 1] as u32;
        let b2 = buf[pos + 2] as u32;
        let b3 = buf[pos + 3] as u32;
        let v = b0 + 256 * b1 + 65536 * b2 + 16777216 * b3;
        proof {
            lemma_u32_parts(
                buf@[pos as int] as u8,
                buf@[pos + 1] as u8,
                buf@[pos + 2] as u8,
                buf@[pos + 3] as u8,
                v,
            );
            assert(buf@.subrange(pos as int, pos + 4) =~= enc_u32(v));
        }
        Some((v, pos + 4))
    } else {
        None
    }
}

/// Read a 64-bit integer stored as two little-endian halves.
pub fn read_u64(buf: &Vec<u8>, pos: usize) -> (r: Option<(u64, usize)>)
    ensures
        match r {
            Some((v, end)) => end == pos + 8 && bytes_at(buf@, pos as int, enc_u64(v)),
            None => pos + 8 > buf@.len(),
        },
{
    let (lo, mid) = match read_u32(buf, pos) {
        Some(x) => x,
        None => {
            return None;
        },
    };
    let (hi, end) = match read_u32(buf, mid) {
        Some(x) => x,
        None => {
            return None;
        },
    };
    let v = (lo as u64) + 0x1_0000_0000u64 * (hi as u64);
    proof {
        assert(v % 0x1_0000_0000 == lo && v / 0x1_0000_0000 == hi) by (bit_vector)
            requires
                v == (lo as u64) + 0x1_0000_0000u64 * (hi as u64),
        ;
        assert(buf@.subrange(pos as int, pos + 8) =~= enc_u64(v)) by {
            assert(bytes_at(buf@, pos as int, enc_u32(lo)));
            assert(bytes_at(buf@, pos + 4, enc_u32(hi)));
            assert(forall|i: int| 0 <= i < 4 ==> buf@[pos + i] == #[trigger] enc_u32(lo)[i]);
            assert(forall|i: int| 0 <= i < 4 ==> buf@[pos + 4 + i] == #[trigger] enc_u32(hi)[i]);
        }
    }
    Some((v, end))
}

/// Read a colour's three channel bytes.
pub fn read_rgb(buf: &Vec<u8>, pos: usize) -> (r: Option<(Rgb, usize)>)
    ensures
        match r {
            Some((c, end)) => end == pos + 3 && bytes_at(buf@, pos as int, enc_rgb(c)),
            None => pos + 3 > buf@.len(),
        },
{
    if buf.len() >= 3 && pos <= buf.len() - 3 {
        let c = Rgb { r: buf[pos], g: buf[pos + 1], b: buf[pos + 2] };
        proof {
            assert(buf@.subrange(pos as int, pos + 3) =~= enc_rgb(c));
        }
        Some((c, pos + 3))
    } else {
        None
    }
}

/// A string's encoding starts at `pos` in `b`.
pub open spec fn str_enc_at(b: Seq<u8>, pos: int, s: Seq<char>) -> bool {
    str_ok(s) && bytes_at(b, pos, enc_str(s))
}

/// Copy `n` bytes of `buf` starting at `a`.
pub fn copy_range(buf: &Vec<u8>, a: usize, n: usize) -> (r: Vec<u8>)
    requires
        a + n <= buf@.len(),
    ensures
        r@ == buf@.subrange(a as int, a + n),
{
    let blen = buf.len();
    let mut bytes: Vec<u8> = Vec::new();
    let mut i: usize = 0;
    while i < n
        invariant
            0 <= i <= n,
            a + n <= blen,
            blen == buf@.len(),
            bytes@ == buf@.subrange(a as int, a + i),
        decreases n - i,
    {
        bytes.push(buf[a + i]);
        i = i + 1;
        proof {
            assert(bytes@ =~= buf@.subrange(a as int, a + i));
        }
    }
    bytes
}

/// Read a length-prefixed UTF-8 string.  On failure, no string's encoding
/// starts at this position.
pub fn read_str(buf: &Vec<u8>, pos: usize) -> (r: Option<(String, usize)>)
    ensures
        match r {
            Some((s, end)) => str_ok(s@) && end == pos + enc_str(s@).len() && bytes_at(
                buf@,
                pos as int,
                enc_str(s@),
            ),
            None => forall|t: Seq<char>| !str_enc_at(buf@, pos as int, t),
        },
{
    broadcast use vstd::utf8::encode_utf8_valid_utf8;
    broadcast use vstd::utf8::encode_utf8_decode_utf8;
    broadcast use vstd::utf8::decode_utf8_encode_utf8;

    let (n, mid) = match read_u32(buf, pos) {
        Some(x) => x,
        None => {
            proof {
                assert forall|t: Seq<char>| !str_enc_at(buf@, pos as int, t) by {
                    if str_enc_at(buf@, pos as int, t) {
                        assert(enc_str(t).len() >= 4);
                    }
                }
            }
            return None;
        },
    };
    if (buf.len() - mid) < (n as usize) {
        proof {
            assert forall|t: Seq<char>| !str_enc_at(buf@, pos as int, t) by {
                if str_enc_at(buf@, pos as int, t) {
                    lemma_str_enc_forces(buf@, pos as int, t, n);
                }
            }
        }
        return None;
    }
    let end = mid + (n as usize);
    let bytes = copy_range(buf, mid, n as usize);
    match bytes_to_string(bytes) {
        Ok(s) => {
            proof {
                assert(vstd::utf8::encode_utf8(s@) =~= buf@.subrange(mid as int, mid + n));
                assert(buf@.subrange(pos as int, pos + enc_str(s@).len()) =~= enc_str(s@)) by {
                    assert forall|i: int| 0 <= i < enc_str(s@).len() implies buf@.subrange(
                        pos as int,
                        pos + enc_str(s@).len(),
                    )[i] == enc_str(s@)[i] by {
                        if i < 4 {
                            assert(buf@[pos + i] == buf@.subrange(pos as int, pos + 4)[i]);
                            assert(enc_str(s@)[i] == enc_u32(n)[i]);
                        } else {
                            assert(buf@[pos + i] == buf@.subrange(mid as int, mid + n)[i - 4]);
                            assert(enc_str(s@)[i] == vstd::utf8::encode_utf8(s@)[i - 4]);
                        }
                    }
                }
            }
            Some((s, end))
        },
        Err(_) => {
            proof {
                let seg = buf@.subrange(mid as int, mid + n);
                assert forall|t: Seq<char>| !str_enc_at(buf@, pos as int, t) by {
                    if str_enc_at(buf@, pos as int, t) {
                        lemma_str_enc_forces(buf@, pos as int, t, n);
                        assert(vstd::utf8::valid_utf8(seg));
                    }
                }
            }
            None
        },
    }
}

/// An optional string's encoding starts at `pos` in `b`.
pub open spec fn opt_str_enc_at(b: Seq<u8>, pos: int, s: Option<Seq<char>>) -> bool {
    opt_str_ok(s) && bytes_at(b, pos, enc_opt_str(s))
}

/// Read an optional string behind its presence tag.  On failure, no optional
/// string's encoding starts at this position.
pub fn read_opt_str(buf: &Vec<u8>, pos: usize) -> (r: Option<(Option<String>, usize)>)
    ensures
        match r {
            Some((s, end)) => {
                let v = match s {
                    Some(t) => Some(t@),
                    None => None,
                };
                opt_str_ok(v) && end == pos + enc_opt_str(v).len() && bytes_at(
                    buf@,
                    pos as int,
                    enc_opt_str(v),
                )
            },
            None => forall|t: Option<Seq<char>>| !opt_str_enc_at(buf@, pos as int, t),
        },
{
    let (tag, mid) = match read_u8(buf, pos) {
        Some(x) => x,
        None => {
            proof {
                assert forall|t: Option<Seq<char>>| !opt_str_enc_at(buf@, pos as int, t) by {
                    if opt_str_enc_at(buf@, pos as int, t) {
                        assert(enc_opt_str(t).len() >= 1);
                    }
                }
            }
            return None;
        },
    };
    if tag == 0 {
        proof {
            assert(buf@.subrange(pos as int, pos + 1) =~= enc_opt_str(None));
        }
        return Some((None, mid));
    }
    if tag != 1 {
        proof {
            assert forall|t: Option<Seq<char>>| !opt_str_enc_at(buf@, pos as int, t) by {
                if opt_str_enc_at(buf@, pos as int, t) {
                    assert(buf@[pos as int] == enc_opt_str(t)[0]);
                }
            }
        }
        return None;
    }
    match read_str(buf, mid) {
        Some((s, end)) => {
            proof {
                assert(buf@.subrange(pos as int, pos + enc_opt_str(Some(s@)).len()) =~= enc_opt_str(
                    Some(s@),
                )) by {
                    assert(forall|i: int|
                        0 <= i < enc_str(s@).len() ==> buf@[mid + i] == #[trigger] enc_str(s@)[i]);
                }
            }
            Some((Some(s), end))
        },
        None => {
            proof {
                assert forall|t: Option<Seq<char>>| !opt_str_enc_at(buf@, pos as int, t) by {
                    if opt_str_enc_at(buf@, pos as int, t) {
                        assert(buf@[pos as int] == enc_opt_str(t)[0]);
                        if t is Some {
                            let ts = t->Some_0;
                            assert(bytes_at(buf@, mid as int, enc_str(ts))) by {
                                assert(buf@.subrange(mid as int, mid + enc_str(ts).len())
                                    =~= enc_str(ts)) by {
                                    assert(forall|i: int|
                                        0 <= i < enc_opt_str(t).len() ==> buf@[pos + i]
                                            == #[trigger] enc_opt_str(t)[i]);
                                    assert(forall|i: int|
                                        0 <= i < enc_str(ts).len() ==> #[trigger] enc_str(ts)[i]
                                            == enc_opt_str(t)[1 + i]);
                                }
                            }
                            assert(str_enc_at(buf@, mid as int, ts));
                        }
                    }
                }
            }
            None
        },
    }
}

} // verus!
