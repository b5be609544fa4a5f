//! The versioned binary archive: a magic-and-version header, a record count,
//! and the records' encodings, compressed as a whole.  Decoding validates the
//! header and consumes the buffer exactly; the loader additionally checks
//! that the stored record identifiers are the dense positions 0..N.

use std::io::Read;
use std::io::Write;
use vstd::prelude::*;

use crate::bytes_enc::{bytes_at, enc_u32, lemma_u32_at_unique, push_u32, read_u32};
use crate::country::{record_views, CompiledCountryRecord, RecordView};
use crate::list_enc::lemma_bytes_at_concat;
use crate::record_enc::{
    enc_record, encode_record, lemma_rec_at_unique, read_record, rec_enc_at, rec_ok,
};

verus! {

/// Errors of archive decoding and loading.
#[derive(Clone, Copy, PartialEq, Eq, Structural, Debug)]
pub enum ArchiveError {
    /// The compressed envelope could not be decompressed.
    Decompress,
    /// The magic bytes or the schema version did not match.
    BadHeader,
    /// The byte stream is not an encoding of a record sequence.
    Malformed,
    /// The stored record identifiers are not the dense positions 0..N.
    BadRecordIds,
}

/// The two magic bytes and the schema version byte.
pub open spec fn arch_magic() -> Seq<u8> {
    seq![67u8, 70u8, 1u8]
}

/// Concatenation of the encodings of a record sequence.
pub open spec fn cat_rec(rs: Seq<RecordView>) -> Seq<u8>
    decreases rs.len(),
{
    if rs.len() == 0 {
        Seq::empty()
    } else {
        enc_record(rs.first()) + cat_rec(rs.drop_first())
    }
}

/// The full encoding of an archive.
pub open spec fn arch_enc(rs: Seq<RecordView>) -> Seq<u8> {
    arch_magic() + enc_u32(rs.len() as u32) + cat_rec(rs)
}

/// Every record fits the format and the count fits its length field.
pub open spec fn arch_ok(rs: Seq<RecordView>) -> bool {
    rs.len() < 0x1_0000_0000 && forall|i: int| 0 <= i < rs.len() ==> rec_ok(#[trigger] rs[i])
}

/// `b` is exactly the encoding of the archive `rs`.
pub open spec fn arch_enc_is(b: Seq<u8>, rs: Seq<RecordView>) -> bool {
    arch_ok(rs) && b == arch_enc(rs)
}

/// The record identifiers are exactly the dense positions 0..N.
pub open spec fn ids_contiguous(rs: Seq<RecordView>) -> bool {
    forall|i: int| 0 <= i < rs.len() ==> (#[trigger] rs[i].record_id) as int == i
}

proof fn lemma_cat_rec_push(rs: Seq<RecordView>, x: RecordView)
    ensures
        cat_rec(rs.push(x)) == cat_rec(rs) + enc_record(x),
    decreases rs.len(),
{
    if rs.len() == 0 {
        assert(cat_rec(Seq::<RecordView>::empty()) == Seq::<u8>::empty());
        assert(rs.push(x).drop_first() =~= Seq::<RecordView>::empty());
        assert(rs.push(x).first() == x);
        assert(cat_rec(rs.push(x)) =~= cat_rec(rs) + enc_record(x));
    } else {
        assert(rs.push(x).drop_first() =~= rs.drop_first().push(x));
        assert(rs.push(x).first() == rs.first());
        lemma_cat_rec_push(rs.drop_first(), x);
        assert(cat_rec(rs.push(x)) =~= cat_rec(rs) + enc_record(x));
    }
}

/// At position `cur` the remaining records of a candidate archive start with
/// the encoding of record `k`.
proof fn lemma_cat_rec_step(b: Seq<u8>, cur: int, rs: Seq<RecordView>, k: int)
    requires
        0 <= cur,
        0 <= k < rs.len(),
        forall|i: int| 0 <= i < rs.len() ==> rec_ok(#[trigger] rs[i]),
        bytes_at(b, cur, cat_rec(rs.skip(k))),
    ensures
        rec_enc_at(b, cur, rs[k]),
        bytes_at(b, cur + enc_record(rs[k]).len(), cat_rec(rs.skip(k + 1))),
{
    let rest = rs.skip(k);
    assert(rest.len() > 0);
    assert(cat_rec(rest) == enc_record(rest.first()) + cat_rec(rest.drop_first()));
    lemma_bytes_at_concat(b, cur, enc_record(rest.first()), cat_rec(rest.drop_first()));
    assert(rest.first() == rs[k]);
    assert(rest.drop_first() =~= rs.skip(k + 1));
}

/// Two archives encoded as the same bytes are the same sequence of records.
/// Together with the encoder's and loader's contracts this is the round-trip
/// law: decoding a compressed encoding of a record sequence yields that
/// sequence and nothing else.
pub proof fn lemma_arch_enc_injective(rs1: Seq<RecordView>, rs2: Seq<RecordView>)
    requires
        arch_ok(rs1),
        arch_ok(rs2),
        arch_enc(rs1) == arch_enc(rs2),
    ensures
        rs1 == rs2,
{
    let b = arch_enc(rs1);
    assert(bytes_at(b, 0, arch_magic() + enc_u32(rs1.len() as u32) + cat_rec(rs1))) by {
        assert(b.subrange(0, b.len() as int) =~= b);
    }
    lemma_bytes_at_concat(b, 0, arch_magic() + enc_u32(rs1.len() as u32), cat_rec(rs1));
    lemma_bytes_at_concat(b, 0, arch_magic(), enc_u32(rs1.len() as u32));
    assert(bytes_at(b, 0, arch_magic() + enc_u32(rs2.len() as u32) + cat_rec(rs2)));
    lemma_bytes_at_concat(b, 0, arch_magic() + enc_u32(rs2.len() as u32), cat_rec(rs2));
    lemma_bytes_at_concat(b, 0, arch_magic(), enc_u32(rs2.len() as u32));
    lemma_u32_at_unique(b, 3, rs1.len() as u32, rs2.len() as u32);
    lemma_cat_rec_at_unique(b, 7, rs1, rs2);
}

/// Two equally long record sequences whose concatenated encodings start at
/// the same position are equal.
proof fn lemma_cat_rec_at_unique(b: Seq<u8>, p: int, v1: Seq<RecordView>, v2: Seq<RecordView>)
    requires
        0 <= p,
        v1.len() == v2.len(),
        forall|i: int| 0 <= i < v1.len() ==> rec_ok(#[trigger] v1[i]),
        forall|i: int| 0 <= i < v2.len() ==> rec_ok(#[trigger] v2[i]),
        bytes_at(b, p, cat_rec(v1)),
        bytes_at(b, p, cat_rec(v2)),
    ensures
        v1 == v2,
    decreases v1.len(),
{
    if v1.len() == 0 {
        assert(v1 =~= v2);
    } else {
        lemma_bytes_at_concat(b, p, enc_record(v1.first()), cat_rec(v1.drop_first()));
        lemma_bytes_at_concat(b, p, enc_record(v2.first()), cat_rec(v2.drop_first()));
        lemma_rec_at_unique(b, p, v1.first(), v2.first());
        lemma_cat_rec_at_unique(
            b,
            p + enc_record(v1.first()).len(),
            v1.drop_first(),
            v2.drop_first(),
        );
        assert(v1 =~= v2) by {
            assert forall|i: int| 0 <= i < v1.len() implies v1[i] == v2[i] by {
                if i > 0 {
                    assert(v1.drop_first()[i - 1] == v1[i]);
                    assert(v2.drop_first()[i - 1] == v2[i]);
                }
            }
        }
    }
}

/// Serialise an ordered record sequence into the versioned binary envelope.
/// Encoding is a pure function of the records: byte-identical archives come
/// from identical record sequences.
pub fn encode_archive(records: &Vec<CompiledCountryRecord>) -> (out: Vec<u8>)
    requires
        arch_ok(record_views(records@)),
    ensures
        out@ == arch_enc(record_views(records@)),
{
    let ghost rs = record_views(records@);
    let mut out: Vec<u8> = Vec::new();
    out.push(67u8);
    out.push(70u8);
    out.push(1u8);
    proof {
        assert(out@ =~= arch_magic());
    }
    push_u32(&mut out, records.len() as u32);
    let ghost head = out@;
    proof {
        assert(head =~= arch_magic() + enc_u32(rs.len() as u32));
        assert(cat_rec(rs.take(0)) == Seq::<u8>::empty());
        assert(out@ =~= head + cat_rec(rs.take(0)));
    }
    let mut i: usize = 0;
    while i < records.len()
        invariant
            0 <= i <= records@.len(),
            rs == record_views(records@),
            arch_ok(rs),
            rs.len() == records@.len(),
            out@ == head + cat_rec(rs.take(i as int)),
        decreases records@.len() - i,
    {
        proof {
            assert(rs[i as int] == records@[i as int]@);
        }
        encode_record(&mut out, &records[i]);
        i = i + 1;
        proof {
            assert(rs.take(i - 1).push(rs[i - 1]) =~= rs.take(i as int));
            lemma_cat_rec_push(rs.take(i - 1), rs[i - 1]);
            assert(out@ =~= head + cat_rec(rs.take(i as int)));
        }
    }
    proof {
        assert(rs.take(rs.len() as int) =~= rs);
        assert(out@ =~= arch_enc(rs));
    }
    out
}

/// Decode the versioned binary envelope back into its record sequence.  On
/// success the whole buffer is exactly the returned records' encoding: a
/// corrupted buffer yields an error, never partially decoded records.
#[verifier::rlimit(100)]
pub fn decode_archive(buf: &Vec<u8>) -> (r: Result<Vec<CompiledCountryRecord>, ArchiveError>)
    ensures
        match r {
            Ok(recs) => arch_enc_is(buf@, record_views(recs@)),
            Err(_) => forall|rs: Seq<RecordView>| !arch_enc_is(buf@, rs),
        },
{
    if buf.len() < 3 || !(buf[0] == 67 && buf[1] == 70 && buf[2] == 1) {
        proof {
            assert forall|rs: Seq<RecordView>| !arch_enc_is(buf@, rs) by {
                if arch_enc_is(buf@, rs) {
                    assert(buf@.len() >= 3);
                    assert(buf@[0] == arch_enc(rs)[0] && buf@[1] == arch_enc(rs)[1] && buf@[2]
                        == arch_enc(rs)[2]);
                    assert(arch_enc(rs)[0] == 67u8 && arch_enc(rs)[1] == 70u8 && arch_enc(rs)[2]
                        == 1u8);
                }
            }
        }
        return Err(ArchiveError::BadHeader);
    }
    let (n, mut cur) = match read_u32(buf, 3) {
        Some(x) => x,
        None => {
            proof {
                assert forall|rs: Seq<RecordView>| !arch_enc_is(buf@, rs) by {
                    if arch_enc_is(buf@, rs) {
                        assert(arch_enc(rs).len() >= 7);
                    }
                }
            }
            return Err(ArchiveError::Malformed);
        },
    };
    let mut got: Vec<CompiledCountryRecord> = Vec::new();
    let mut k: u32 = 0;
    proof {
        assert forall|rs: Seq<RecordView>|
            #[trigger] arch_enc_is(buf@, rs) implies rs.len() == n && rs.take(0)
            == record_views(got@) && bytes_at(buf@, 7, cat_rec(rs.skip(0))) by {
            assert(bytes_at(buf@, 0, arch_enc(rs))) by {
                assert(buf@.subrange(0, buf@.len() as int) =~= buf@);
            }
            lemma_bytes_at_concat(buf@, 0, arch_magic() + enc_u32(rs.len() as u32), cat_rec(rs));
            lemma_bytes_at_concat(buf@, 0, arch_magic(), enc_u32(rs.len() as u32));
            lemma_u32_at_unique(buf@, 3, n, rs.len() as u32);
            assert(rs.skip(0) =~= rs);
            assert(rs.take(0) =~= record_views(got@));
        }
        assert(record_views(got@) =~= Seq::<RecordView>::empty());
        assert(cat_rec(record_views(got@)) == Seq::<u8>::empty());
        assert(buf@.subrange(7, 7) =~= Seq::<u8>::empty());
    }
    while k < n
        invariant
            0 <= k <= n,
            got@.len() == k,
            7 <= cur <= buf@.len(),
            forall|i: int| 0 <= i < got@.len() ==> rec_ok(#[trigger] record_views(got@)[i]),
            bytes_at(buf@, 7, cat_rec(record_views(got@))),
            cur == 7 + cat_rec(record_views(got@)).len(),
            forall|rs: Seq<RecordView>|
                #[trigger] arch_enc_is(buf@, rs) ==> rs.len() == n && rs.take(k as int)
                    == record_views(got@) && bytes_at(buf@, cur as int, cat_rec(rs.skip(k as int))),
        decreases n - k,
    {
        let ghost got_rs = record_views(got@);
        match read_record(buf, cur) {
            Some((rec, end)) => {
                got.push(rec);
                proof {
                    assert(record_views(got@) =~= got_rs.push(rec@));
                    lemma_cat_rec_push(got_rs, rec@);
                    lemma_bytes_at_concat(buf@, 7, cat_rec(got_rs), enc_record(rec@));
                    assert forall|rs: Seq<RecordView>|
                        #[trigger] arch_enc_is(buf@, rs) implies rs.len() == n && rs.take(k + 1)
                        == record_views(got@) && bytes_at(
                        buf@,
                        end as int,
                        cat_rec(rs.skip(k + 1)),
                    ) by {
                        assert(rs.len() == n && rs.take(k as int) == got_rs && bytes_at(
                            buf@,
                            cur as int,
                            cat_rec(rs.skip(k as int)),
                        ));
                        lemma_cat_rec_step(buf@, cur as int, rs, k as int);
                        lemma_rec_at_unique(buf@, cur as int, rs[k as int], rec@);
                        assert(rs.take(k + 1) =~= rs.take(k as int).push(rs[k as int]));
                    }
                }
                cur = end;
                k = k + 1;
            },
            None => {
                proof {
                    assert forall|rs: Seq<RecordView>| !arch_enc_is(buf@, rs) by {
                        if arch_enc_is(buf@, rs) {
                            assert(rs.len() == n && bytes_at(
                                buf@,
                                cur as int,
                                cat_rec(rs.skip(k as int)),
                            ));
                            lemma_cat_rec_step(buf@, cur as int, rs, k as int);
                        }
                    }
                }
                return Err(ArchiveError::Malformed);
            },
        }
    }
    if cur != buf.len() {
        proof {
            assert forall|rs: Seq<RecordView>| !arch_enc_is(buf@, rs) by {
                if arch_enc_is(buf@, rs) {
                    assert(rs.len() == n && rs.take(n as int) == record_views(got@));
                    assert(rs.take(n as int) =~= rs);
                    assert(arch_enc(rs).len() == 7 + cat_rec(rs).len());
                    assert(cat_rec(rs) == cat_rec(record_views(got@)));
                }
            }
        }
        return Err(ArchiveError::Malformed);
    }
    proof {
        let rs = record_views(got@);
        assert(got@.len() == n);
        assert(buf@ =~= arch_enc(rs)) by {
            assert(bytes_at(buf@, 7, cat_rec(rs)));
            assert(buf@.len() == 7 + cat_rec(rs).len());
            assert forall|i: int| 0 <= i < buf@.len() implies buf@[i] == arch_enc(rs)[i] by {
                if i < 3 {
                    assert(arch_enc(rs)[i] == arch_magic()[i]);
                } else if i < 7 {
                    assert(bytes_at(buf@, 3, enc_u32(n)));
                    assert(buf@.subrange(3, 7)[i - 3] == buf@[i]);
                    assert(arch_enc(rs)[i] == enc_u32(rs.len() as u32)[i - 3]);
                } else {
                    assert(buf@.subrange(7, 7 + cat_rec(rs).len() as int)[i - 7] == buf@[i]);
                    assert(arch_enc(rs)[i] == cat_rec(rs)[i - 7]);
                }
            }
        }
    }
    Ok(got)
}

/// What `flate2`'s gzip decompression yields on a byte stream: a function of
/// the bytes alone, `None` where the stream is not a well-formed gzip
/// envelope.
pub uninterp spec fn gunzip_of(b: Seq<u8>) -> Option<Seq<u8>>;

/// Relies on `flate2::write::GzEncoder`: gzip compression of the whole
/// buffer, whose output decompresses back to exactly the input.  The sink is
/// an in-memory vector whose writes are infallible, so compression always
/// succeeds: the encoder only ever propagates errors of the inner writer.
#[verifier::external_body]
fn gzip_compress(data: &Vec<u8>) -> (c: Vec<u8>)
    ensures
        gunzip_of(c@) == Some(data@),
{
    let mut enc = flate2::write::GzEncoder::new(Vec::new(), flate2::Compression::default());
    enc.write_all(data.as_slice()).expect("writing to an in-memory sink cannot fail");
    enc.finish().expect("finishing an in-memory gzip stream cannot fail")
}

/// Relies on `flate2::read::GzDecoder`: gzip decompression of the whole
/// buffer, failing exactly where the stream is not well-formed gzip.
#[verifier::external_body]
fn gzip_decompress(data: &Vec<u8>) -> (r: Result<Vec<u8>, ArchiveError>)
    ensures
        match r {
            Ok(v) => gunzip_of(data@) == Some(v@),
            Err(e) => gunzip_of(data@) is None && e == ArchiveError::Decompress,
        },
{
    let mut dec = flate2::read::GzDecoder::new(data.as_slice());
    let mut out = Vec::new();
    match dec.read_to_end(&mut out) {
        Ok(_) => Ok(out),
        Err(_) => Err(ArchiveError::Decompress),
    }
}

/// Serialise and compress an ordered record sequence into the embeddable
/// archive blob.
pub fn compress_archive(records: &Vec<CompiledCountryRecord>) -> (c: Vec<u8>)
    requires
        arch_ok(record_views(records@)),
    ensures
        gunzip_of(c@) == Some(arch_enc(record_views(records@))),
{
    let encoded = encode_archive(records);
    gzip_compress(&encoded)
}

/// Decompress, decode and validate an archive blob.  Succeeds exactly when
/// the blob decompresses to the encoding of a record sequence whose record
/// identifiers are the dense positions 0..N; a corrupted blob yields an
/// error, never garbage records.
pub fn load_archive(compressed: &Vec<u8>) -> (r: Result<Vec<CompiledCountryRecord>, ArchiveError>)
    ensures
        match r {
            Ok(recs) => {
                let rs = record_views(recs@);
                &&& gunzip_of(compressed@) == Some(arch_enc(rs))
                &&& arch_ok(rs)
                &&& ids_contiguous(rs)
            },
            Err(_) => match gunzip_of(compressed@) {
                None => true,
                Some(bytes) => forall|rs: Seq<RecordView>|
                    !(#[trigger] arch_enc_is(bytes, rs) && ids_contiguous(rs)),
            },
        },
{
    let bytes = match gzip_decompress(compressed) {
        Ok(b) => b,
        Err(e) => {
            return Err(e);
        },
    };
    let recs = match decode_archive(&bytes) {
        Ok(v) => v,
        Err(e) => {
            proof {
                assert forall|rs: Seq<RecordView>|
                    !(#[trigger] arch_enc_is(bytes@, rs) && ids_contiguous(rs)) by {}
            }
            return Err(e);
        },
    };
    // Validate that the stored identifiers are the dense positions.
    let mut i: usize = 0;
    while i < recs.len()
        invariant
            0 <= i <= recs@.len(),
            arch_enc_is(bytes@, record_views(recs@)),
            gunzip_of(compressed@) == Some(bytes@),
            forall|m: int| 0 <= m < i ==> (#[trigger] record_views(recs@)[m].record_id) as int
                == m,
        decreases recs@.len() - i,
    {
        if !(recs[i].record_id as usize == i) {
            proof {
                let rs0 = record_views(recs@);
                assert(rs0[i as int].record_id as int != i);
                assert forall|rs: Seq<RecordView>|
                    !(#[trigger] arch_enc_is(bytes@, rs) && ids_contiguous(rs)) by {
                    if arch_enc_is(bytes@, rs) && ids_contiguous(rs) {
                        lemma_arch_enc_injective(rs, rs0);
                    }
                }
            }
            return Err(ArchiveError::BadRecordIds);
        }
        i = i + 1;
    }
    Ok(recs)
}

} // verus!
