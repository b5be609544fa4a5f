//! Encoding of one compiled country record: a fixed chain of the primitive
//! encodings, one per field.  The decoder's contract mirrors the encoder's:
//! on success the consumed bytes are exactly the record's encoding, and on
//! failure no record's encoding starts at the given position.

use vstd::prelude::*;

use crate::bytes_enc::{
    bytes_at, enc_opt_str, enc_rgb, enc_str, enc_u32, enc_u64, lemma_str_at_unique,
    lemma_u32_at_unique, opt_str_enc_at, opt_str_ok, push_opt_str, push_rgb, push_str, push_u32,
    push_u64, read_opt_str, read_rgb, read_str, read_u32, read_u64, str_enc_at, str_ok,
};
use crate::color::Rgb;
use crate::country::{
    views_of_currencies, views_of_languages, views_of_strings, CompiledCountryRecord, Country,
    Currency, Car, Flag, Idd, Name, RecordView, RenderedFlagAssets, view_of_opt_string,
};
use crate::list_enc::{
    bytes_arr_enc_at, bytes_arr_ok, enc_bytes_arr, enc_vec_str, flatten_pairs, flatten_rgb,
    flatten_triples, lemma_bytes_arr_at_unique, lemma_bytes_at_concat,
    lemma_flatten_pairs_injective, lemma_flatten_pairs_len, lemma_flatten_rgb_injective,
    lemma_flatten_rgb_len, lemma_flatten_triples_injective, lemma_flatten_triples_len,
    lemma_vec_str_at_unique, push_bytes_arr, push_vec_str, read_bytes_arr, read_vec_str,
    vec_str_enc_at, vec_str_ok,
};

verus! {

/// The number of encoded fields of a record.
pub open spec fn rec_field_count() -> int {
    22
}

/// The encoding of field `k` of a record.
pub open spec fn enc_field(r: RecordView, k: int) -> Seq<u8> {
    if k == 0 {
        enc_str(r.country.name)
    } else if k == 1 {
        enc_vec_str(r.country.tld)
    } else if k == 2 {
        enc_str(r.country.cca3)
    } else if k == 3 {
        enc_str(r.country.cca2)
    } else if k == 4 {
        enc_vec_str(flatten_triples(r.country.currencies))
    } else if k == 5 {
        enc_vec_str(flatten_pairs(r.country.languages))
    } else if k == 6 {
        enc_vec_str(r.country.neighbours)
    } else if k == 7 {
        enc_u64(r.country.area_m2)
    } else if k == 8 {
        enc_str(r.country.emoji)
    } else if k == 9 {
        enc_u64(r.country.population)
    } else if k == 10 {
        enc_vec_str(r.country.continents)
    } else if k == 11 {
        enc_str(r.country.flag_url)
    } else if k == 12 {
        enc_opt_str(r.country.flag_description)
    } else if k == 13 {
        enc_vec_str(r.country.capital)
    } else if k == 14 {
        enc_str(r.country.driving_side)
    } else if k == 15 {
        enc_str(r.country.idd_root)
    } else if k == 16 {
        enc_vec_str(r.country.idd_suffixes)
    } else if k == 17 {
        enc_str(r.assets.plain)
    } else if k == 18 {
        enc_str(r.assets.colored)
    } else if k == 19 {
        enc_bytes_arr(flatten_rgb(r.assets.palette))
    } else if k == 20 {
        enc_rgb(r.assets.brightest)
    } else {
        enc_u32(r.record_id)
    }
}

/// The encodings of fields `k` onwards, concatenated.
pub open spec fn enc_rec_from(r: RecordView, k: int) -> Seq<u8>
    decreases rec_field_count() - k,
{
    if k < 0 || k >= rec_field_count() {
        Seq::empty()
    } else {
        enc_field(r, k) + enc_rec_from(r, k + 1)
    }
}

/// The full encoding of one record.
pub open spec fn enc_record(r: RecordView) -> Seq<u8> {
    enc_rec_from(r, 0)
}

/// Every field of the record fits the format's 32-bit length fields.
pub open spec fn rec_ok(r: RecordView) -> bool {
    &&& str_ok(r.country.name)
    &&& vec_str_ok(r.country.tld)
    &&& str_ok(r.country.cca3)
    &&& str_ok(r.country.cca2)
    &&& vec_str_ok(flatten_triples(r.country.currencies))
    &&& vec_str_ok(flatten_pairs(r.country.languages))
    &&& vec_str_ok(r.country.neighbours)
    &&& str_ok(r.country.emoji)
    &&& vec_str_ok(r.country.continents)
    &&& str_ok(r.country.flag_url)
    &&& opt_str_ok(r.country.flag_description)
    &&& vec_str_ok(r.country.capital)
    &&& str_ok(r.country.driving_side)
    &&& str_ok(r.country.idd_root)
    &&& vec_str_ok(r.country.idd_suffixes)
    &&& str_ok(r.assets.plain)
    &&& str_ok(r.assets.colored)
    &&& bytes_arr_ok(flatten_rgb(r.assets.palette))
}

/// A record's encoding starts at `pos` in `b`.
pub open spec fn rec_enc_at(b: Seq<u8>, pos: int, r: RecordView) -> bool {
    rec_ok(r) && bytes_at(b, pos, enc_record(r))
}


/// Concatenation of sequences is associative.
proof fn lemma_seq_assoc<A>(a: Seq<A>, b: Seq<A>, c: Seq<A>)
    ensures
        (a + b) + c == a + (b + c),
{
    assert((a + b) + c =~= a + (b + c));
}

/// Two 64-bit integers encoded at the same position are equal.
proof fn lemma_u64_at_unique(b: Seq<u8>, p: int, v1: u64, v2: u64)
    requires
        bytes_at(b, p, enc_u64(v1)),
        bytes_at(b, p, enc_u64(v2)),
    ensures
        v1 == v2,
{
    lemma_bytes_at_concat(
        b,
        p,
        enc_u32((v1 % 0x1_0000_0000) as u32),
        enc_u32((v1 / 0x1_0000_0000) as u32),
    );
    lemma_bytes_at_concat(
        b,
        p,
        enc_u32((v2 % 0x1_0000_0000) as u32),
        enc_u32((v2 / 0x1_0000_0000) as u32),
    );
    lemma_u32_at_unique(b, p, (v1 % 0x1_0000_0000) as u32, (v2 % 0x1_0000_0000) as u32);
    lemma_u32_at_unique(b, p + 4, (v1 / 0x1_0000_0000) as u32, (v2 / 0x1_0000_0000) as u32);
}

/// Two colours encoded at the same position are equal.
proof fn lemma_rgb_at_unique(b: Seq<u8>, p: int, c1: Rgb, c2: Rgb)
    requires
        bytes_at(b, p, enc_rgb(c1)),
        bytes_at(b, p, enc_rgb(c2)),
    ensures
        c1 == c2,
{
    assert(enc_rgb(c1)[0] == b[p] && enc_rgb(c2)[0] == b[p]);
    assert(enc_rgb(c1)[1] == b[p + 1] && enc_rgb(c2)[1] == b[p + 1]);
    assert(enc_rgb(c1)[2] == b[p + 2] && enc_rgb(c2)[2] == b[p + 2]);
}

/// Two optional strings encoded at the same position are equal.
proof fn lemma_opt_str_at_unique(b: Seq<u8>, p: int, s1: Option<Seq<char>>, s2: Option<Seq<char>>)
    requires
        opt_str_enc_at(b, p, s1),
        opt_str_enc_at(b, p, s2),
    ensures
        s1 == s2,
{
    assert(enc_opt_str(s1)[0] == b[p] && enc_opt_str(s2)[0] == b[p]);
    match (s1, s2) {
        (Some(t1), Some(t2)) => {
            lemma_bytes_at_concat(b, p, seq![1u8], enc_str(t1));
            lemma_bytes_at_concat(b, p, seq![1u8], enc_str(t2));
            lemma_str_at_unique(b, p + 1, t1, t2);
        },
        _ => {},
    }
}

/// Append the encoding of one record.
#[verifier::rlimit(100)]
#[verifier::spinoff_prover]
pub fn encode_record(out: &mut Vec<u8>, rec: &CompiledCountryRecord)
    requires
        rec_ok(rec@),
    ensures
        final(out)@ == old(out)@ + enc_record(rec@),
{
    let ghost r = rec@;
    let ghost base = out@;
    proof {
        assert(enc_rec_to(r, 0) == Seq::<u8>::empty());
        assert(out@ =~= base + enc_rec_to(r, 0));
    }
    push_str(out, rec.country.country_name.common.as_str());
    proof {
        assert(enc_rec_to(r, 1) == enc_rec_to(r, 0) + enc_field(r, 0));
        lemma_seq_assoc(base, enc_rec_to(r, 0), enc_field(r, 0));
        assert(out@ == base + enc_rec_to(r, 1));
    }
    push_vec_str(out, &rec.country.top_level_domain);
    proof {
        assert(enc_rec_to(r, 2) == enc_rec_to(r, 1) + enc_field(r, 1));
        lemma_seq_assoc(base, enc_rec_to(r, 1), enc_field(r, 1));
        assert(out@ == base + enc_rec_to(r, 2));
    }
    push_str(out, rec.country.country_code3.as_str());
    proof {
        assert(enc_rec_to(r, 3) == enc_rec_to(r, 2) + enc_field(r, 2));
        lemma_seq_assoc(base, enc_rec_to(r, 2), enc_field(r, 2));
        assert(out@ == base + enc_rec_to(r, 3));
    }
    push_str(out, rec.country.country_code2.as_str());
    proof {
        assert(enc_rec_to(r, 4) == enc_rec_to(r, 3) + enc_field(r, 3));
        lemma_seq_assoc(base, enc_rec_to(r, 3), enc_field(r, 3));
        assert(out@ == base + enc_rec_to(r, 4));
    }
    push_currency_strings(out, &rec.country.currencies);
    proof {
        assert(enc_rec_to(r, 5) == enc_rec_to(r, 4) + enc_field(r, 4));
        lemma_seq_assoc(base, enc_rec_to(r, 4), enc_field(r, 4));
        assert(out@ == base + enc_rec_to(r, 5));
    }
    push_language_strings(out, &rec.country.languages);
    proof {
        assert(enc_rec_to(r, 6) == enc_rec_to(r, 5) + enc_field(r, 5));
        lemma_seq_assoc(base, enc_rec_to(r, 5), enc_field(r, 5));
        assert(out@ == base + enc_rec_to(r, 6));
    }
    push_vec_str(out, &rec.country.neighbours);
    proof {
        assert(enc_rec_to(r, 7) == enc_rec_to(r, 6) + enc_field(r, 6));
        lemma_seq_assoc(base, enc_rec_to(r, 6), enc_field(r, 6));
        assert(out@ == base + enc_rec_to(r, 7));
    }
    push_u64(out, rec.country.area_m2);
    proof {
        assert(enc_rec_to(r, 8) == enc_rec_to(r, 7) + enc_field(r, 7));
        lemma_seq_assoc(base, enc_rec_to(r, 7), enc_field(r, 7));
        assert(out@ == base + enc_rec_to(r, 8));
    }
    push_str(out, rec.country.emoji.as_str());
    proof {
        assert(enc_rec_to(r, 9) == enc_rec_to(r, 8) + enc_field(r, 8));
        lemma_seq_assoc(base, enc_rec_to(r, 8), enc_field(r, 8));
        assert(out@ == base + enc_rec_to(r, 9));
    }
    push_u64(out, rec.country.population);
    proof {
        assert(enc_rec_to(r, 10) == enc_rec_to(r, 9) + enc_field(r, 9));
        lemma_seq_assoc(base, enc_rec_to(r, 9), enc_field(r, 9));
        assert(out@ == base + enc_rec_to(r, 10));
    }
    push_vec_str(out, &rec.country.continents);
    proof {
        assert(enc_rec_to(r, 11) == enc_rec_to(r, 10) + enc_field(r, 10));
        lemma_seq_assoc(base, enc_rec_to(r, 10), enc_field(r, 10));
        assert(out@ == base + enc_rec_to(r, 11));
    }
    push_str(out, rec.country.flag.url.as_str());
    proof {
        assert(enc_rec_to(r, 12) == enc_rec_to(r, 11) + enc_field(r, 11));
        lemma_seq_assoc(base, enc_rec_to(r, 11), enc_field(r, 11));
        assert(out@ == base + enc_rec_to(r, 12));
    }
    push_opt_str(out, &rec.country.flag.description);
    proof {
        assert(enc_rec_to(r, 13) == enc_rec_to(r, 12) + enc_field(r, 12));
        lemma_seq_assoc(base, enc_rec_to(r, 12), enc_field(r, 12));
        assert(out@ == base + enc_rec_to(r, 13));
    }
    push_vec_str(out, &rec.country.capital);
    proof {
        assert(enc_rec_to(r, 14) == enc_rec_to(r, 13) + enc_field(r, 13));
        lemma_seq_assoc(base, enc_rec_to(r, 13), enc_field(r, 13));
        assert(out@ == base + enc_rec_to(r, 14));
    }
    push_str(out, rec.country.car.side.as_str());
    proof {
        assert(enc_rec_to(r, 15) == enc_rec_to(r, 14) + enc_field(r, 14));
        lemma_seq_assoc(base, enc_rec_to(r, 14), enc_field(r, 14));
        assert(out@ == base + enc_rec_to(r, 15));
    }
    push_str(out, rec.country.dialing_code.root.as_str());
    proof {
        assert(enc_rec_to(r, 16) == enc_rec_to(r, 15) + enc_field(r, 15));
        lemma_seq_assoc(base, enc_rec_to(r, 15), enc_field(r, 15));
        assert(out@ == base + enc_rec_to(r, 16));
    }
    push_vec_str(out, &rec.country.dialing_code.suffixes);
    proof {
        assert(enc_rec_to(r, 17) == enc_rec_to(r, 16) + enc_field(r, 16));
        lemma_seq_assoc(base, enc_rec_to(r, 16), enc_field(r, 16));
        assert(out@ == base + enc_rec_to(r, 17));
    }
    push_str(out, rec.assets.flag_ascii_plain.as_str());
    proof {
        assert(enc_rec_to(r, 18) == enc_rec_to(r, 17) + enc_field(r, 17));
        lemma_seq_assoc(base, enc_rec_to(r, 17), enc_field(r, 17));
        assert(out@ == base + enc_rec_to(r, 18));
    }
    push_str(out, rec.assets.flag_ascii_colored.as_str());
    proof {
        assert(enc_rec_to(r, 19) == enc_rec_to(r, 18) + enc_field(r, 18));
        lemma_seq_assoc(base, enc_rec_to(r, 18), enc_field(r, 18));
        assert(out@ == base + enc_rec_to(r, 19));
    }
    push_palette_bytes(out, &rec.assets.flag_palette);
    proof {
        assert(enc_rec_to(r, 20) == enc_rec_to(r, 19) + enc_field(r, 19));
        lemma_seq_assoc(base, enc_rec_to(r, 19), enc_field(r, 19));
        assert(out@ == base + enc_rec_to(r, 20));
    }
    push_rgb(out, &rec.assets.brightest_color);
    proof {
        assert(enc_rec_to(r, 21) == enc_rec_to(r, 20) + enc_field(r, 20));
        lemma_seq_assoc(base, enc_rec_to(r, 20), enc_field(r, 20));
        assert(out@ == base + enc_rec_to(r, 21));
    }
    push_u32(out, rec.record_id);
    proof {
        assert(enc_rec_to(r, 22) == enc_rec_to(r, 21) + enc_field(r, 21));
        lemma_seq_assoc(base, enc_rec_to(r, 21), enc_field(r, 21));
        assert(out@ == base + enc_rec_to(r, 22));
    }
    proof {
        lemma_rec_split(r, 22);
        assert(enc_rec_to(r, 22) + enc_rec_from(r, 22) =~= enc_rec_to(r, 22));
        assert(out@ == base + enc_record(r));
    }
}

/// The encodings of fields before `k`, concatenated.
pub open spec fn enc_rec_to(r: RecordView, k: int) -> Seq<u8>
    decreases k,
{
    if k <= 0 {
        Seq::empty()
    } else {
        enc_rec_to(r, k - 1) + enc_field(r, k - 1)
    }
}

/// The fields before `k` and the fields from `k` on make the whole record.
pub proof fn lemma_rec_split(r: RecordView, k: int)
    requires
        0 <= k <= rec_field_count(),
    ensures
        enc_rec_to(r, k) + enc_rec_from(r, k) == enc_record(r),
    decreases k,
{
    if k == 0 {
        assert(enc_rec_to(r, 0) + enc_rec_from(r, 0) =~= enc_record(r));
    } else {
        lemma_rec_split(r, k - 1);
        assert(enc_rec_from(r, k - 1) == enc_field(r, k - 1) + enc_rec_from(r, k));
        assert(enc_rec_to(r, k) + enc_rec_from(r, k) =~= enc_rec_to(r, k - 1) + enc_rec_from(
            r,
            k - 1,
        ));
    }
}

/// Currency entries flattened into their code, name and symbol strings.
fn currency_strings(v: &Vec<(String, Currency)>) -> (r: Vec<String>)
    ensures
        views_of_strings(r@) == flatten_triples(views_of_currencies(v@)),
{
    let mut out: Vec<String> = Vec::new();
    let mut i: usize = 0;
    proof {
        assert(views_of_strings(out@) =~= flatten_triples(views_of_currencies(v@.take(0))));
    }
    while i < v.len()
        invariant
            0 <= i <= v@.len(),
            views_of_strings(out@) == flatten_triples(views_of_currencies(v@.take(i as int))),
        decreases v@.len() - i,
    {
        let (code, cur) = &v[i];
        out.push(code.clone());
        out.push(cur.name.clone());
        out.push(cur.symbol.clone());
        i = i + 1;
        proof {
            lemma_flatten_triples_push(
                views_of_currencies(v@.take(i - 1)),
                (v@[i - 1].0@, v@[i - 1].1.name@, v@[i - 1].1.symbol@),
            );
            assert(views_of_currencies(v@.take(i - 1)).push(
                (v@[i - 1].0@, v@[i - 1].1.name@, v@[i - 1].1.symbol@),
            ) =~= views_of_currencies(v@.take(i as int)));
            assert(views_of_strings(out@) =~= flatten_triples(
                views_of_currencies(v@.take(i as int)),
            ));
        }
    }
    proof {
        assert(v@.take(v@.len() as int) =~= v@);
    }
    out
}

proof fn lemma_flatten_triples_push(
    v: Seq<(Seq<char>, Seq<char>, Seq<char>)>,
    x: (Seq<char>, Seq<char>, Seq<char>),
)
    ensures
        flatten_triples(v.push(x)) == flatten_triples(v) + seq![x.0, x.1, x.2],
    decreases v.len(),
{
    if v.len() == 0 {
        assert(flatten_triples(Seq::<(Seq<char>, Seq<char>, Seq<char>)>::empty())
            == Seq::<Seq<char>>::empty());
        assert(v.push(x).drop_first() =~= Seq::<(Seq<char>, Seq<char>, Seq<char>)>::empty());
        assert(v.push(x).first() == x);
        assert(flatten_triples(v.push(x)) =~= flatten_triples(v) + seq![x.0, x.1, x.2]);
    } else {
        assert(v.push(x).drop_first() =~= v.drop_first().push(x));
        assert(v.push(x).first() == v.first());
        lemma_flatten_triples_push(v.drop_first(), x);
        assert(flatten_triples(v.push(x)) =~= flatten_triples(v) + seq![x.0, x.1, x.2]);
    }
}

proof fn lemma_flatten_pairs_push(v: Seq<(Seq<char>, Seq<char>)>, x: (Seq<char>, Seq<char>))
    ensures
        flatten_pairs(v.push(x)) == flatten_pairs(v) + seq![x.0, x.1],
    decreases v.len(),
{
    if v.len() == 0 {
        assert(flatten_pairs(Seq::<(Seq<char>, Seq<char>)>::empty()) == Seq::<Seq<char>>::empty());
        assert(v.push(x).drop_first() =~= Seq::<(Seq<char>, Seq<char>)>::empty());
        assert(v.push(x).first() == x);
        assert(flatten_pairs(v.push(x)) =~= flatten_pairs(v) + seq![x.0, x.1]);
    } else {
        assert(v.push(x).drop_first() =~= v.drop_first().push(x));
        assert(v.push(x).first() == v.first());
        lemma_flatten_pairs_push(v.drop_first(), x);
        assert(flatten_pairs(v.push(x)) =~= flatten_pairs(v) + seq![x.0, x.1]);
    }
}

proof fn lemma_flatten_rgb_push(v: Seq<Rgb>, x: Rgb)
    ensures
        flatten_rgb(v.push(x)) == flatten_rgb(v) + seq![x.r, x.g, x.b],
    decreases v.len(),
{
    if v.len() == 0 {
        assert(flatten_rgb(Seq::<Rgb>::empty()) == Seq::<u8>::empty());
        assert(v.push(x).drop_first() =~= Seq::<Rgb>::empty());
        assert(v.push(x).first() == x);
        assert(flatten_rgb(v.push(x)) =~= flatten_rgb(v) + seq![x.r, x.g, x.b]);
    } else {
        assert(v.push(x).drop_first() =~= v.drop_first().push(x));
        assert(v.push(x).first() == v.first());
        lemma_flatten_rgb_push(v.drop_first(), x);
        assert(flatten_rgb(v.push(x)) =~= flatten_rgb(v) + seq![x.r, x.g, x.b]);
    }
}

/// Append the currency entries as a flat string list.
fn push_currency_strings(out: &mut Vec<u8>, v: &Vec<(String, Currency)>)
    requires
        vec_str_ok(flatten_triples(views_of_currencies(v@))),
    ensures
        final(out)@ == old(out)@ + enc_vec_str(flatten_triples(views_of_currencies(v@))),
{
    let flat = currency_strings(v);
    push_vec_str(out, &flat);
}

/// Language entries flattened into their code and name strings.
fn language_strings(v: &Vec<(String, String)>) -> (r: Vec<String>)
    ensures
        views_of_strings(r@) == flatten_pairs(views_of_languages(v@)),
{
    let mut out: Vec<String> = Vec::new();
    let mut i: usize = 0;
    proof {
        assert(views_of_strings(out@) =~= flatten_pairs(views_of_languages(v@.take(0))));
    }
    while i < v.len()
        invariant
            0 <= i <= v@.len(),
            views_of_strings(out@) == flatten_pairs(views_of_languages(v@.take(i as int))),
        decreases v@.len() - i,
    {
        let (code, name) = &v[i];
        out.push(code.clone());
        out.push(name.clone());
        i = i + 1;
        proof {
            lemma_flatten_pairs_push(
                views_of_languages(v@.take(i - 1)),
                (v@[i - 1].0@, v@[i - 1].1@),
            );
            assert(views_of_languages(v@.take(i - 1)).push((v@[i - 1].0@, v@[i - 1].1@))
                =~= views_of_languages(v@.take(i as int)));
            assert(views_of_strings(out@) =~= flatten_pairs(
                views_of_languages(v@.take(i as int)),
            ));
        }
    }
    proof {
        assert(v@.take(v@.len() as int) =~= v@);
    }
    out
}

/// Append the language entries as a flat string list.
fn push_language_strings(out: &mut Vec<u8>, v: &Vec<(String, String)>)
    requires
        vec_str_ok(flatten_pairs(views_of_languages(v@))),
    ensures
        final(out)@ == old(out)@ + enc_vec_str(flatten_pairs(views_of_languages(v@))),
{
    let flat = language_strings(v);
    push_vec_str(out, &flat);
}

/// The palette packed into channel bytes.
fn palette_bytes(v: &Vec<Rgb>) -> (r: Vec<u8>)
    ensures
        r@ == flatten_rgb(v@),
{
    let mut out: Vec<u8> = Vec::new();
    let mut i: usize = 0;
    proof {
        assert(out@ =~= flatten_rgb(v@.take(0)));
    }
    while i < v.len()
        invariant
            0 <= i <= v@.len(),
            out@ == flatten_rgb(v@.take(i as int)),
        decreases v@.len() - i,
    {
        let c = v[i];
        out.push(c.r);
        out.push(c.g);
        out.push(c.b);
        i = i + 1;
        proof {
            lemma_flatten_rgb_push(v@.take(i - 1), v@[i - 1]);
            assert(v@.take(i - 1).push(v@[i - 1]) =~= v@.take(i as int));
            assert(out@ =~= flatten_rgb(v@.take(i as int)));
        }
    }
    proof {
        assert(v@.take(v@.len() as int) =~= v@);
    }
    out
}

/// Append the palette as a counted byte array of packed channels.
fn push_palette_bytes(out: &mut Vec<u8>, v: &Vec<Rgb>)
    requires
        bytes_arr_ok(flatten_rgb(v@)),
    ensures
        final(out)@ == old(out)@ + enc_bytes_arr(flatten_rgb(v@)),
{
    let flat = palette_bytes(v);
    push_bytes_arr(out, &flat);
}

/// Rebuild currency entries from the flat string list; fails unless the list
/// splits into triples.
fn unflatten_currencies(flat: Vec<String>) -> (r: Option<Vec<(String, Currency)>>)
    ensures
        match r {
            Some(v) => flatten_triples(views_of_currencies(v@)) == views_of_strings(flat@),
            None => views_of_strings(flat@).len() % 3 != 0,
        },
{
    if flat.len() % 3 != 0 {
        return None;
    }
    let n = flat.len() / 3;
    let mut out: Vec<(String, Currency)> = Vec::new();
    let mut i: usize = 0;
    proof {
        assert(flatten_triples(views_of_currencies(out@)) =~= views_of_strings(flat@).take(0));
    }
    while i < n
        invariant
            0 <= i <= n,
            n == flat@.len() / 3,
            flat@.len() % 3 == 0,
            flat@.len() <= usize::MAX,
            flatten_triples(views_of_currencies(out@)) == views_of_strings(flat@).take(3 * i),
        decreases n - i,
    {
        let ghost prev = views_of_currencies(out@);
        let code = flat[3 * i].clone();
        let name = flat[3 * i + 1].clone();
        let symbol = flat[3 * i + 2].clone();
        out.push((code, Currency { name, symbol }));
        i = i + 1;
        proof {
            let f = views_of_strings(flat@);
            lemma_flatten_triples_push(prev, (f[3 * i - 3], f[3 * i - 2], f[3 * i - 1]));
            assert(views_of_currencies(out@) =~= prev.push((f[3 * i - 3], f[3 * i - 2], f[3 * i
                - 1])));
            assert(f.take(3 * i) =~= f.take(3 * i - 3) + seq![f[3 * i - 3], f[3 * i - 2], f[3 * i
                - 1]]);
            assert(flatten_triples(views_of_currencies(out@)) =~= f.take(3 * i as int));
        }
    }
    proof {
        assert(views_of_strings(flat@).take(3 * n as int) =~= views_of_strings(flat@));
    }
    Some(out)
}

/// Rebuild language entries from the flat string list; fails unless the list
/// splits into pairs.
fn unflatten_languages(flat: Vec<String>) -> (r: Option<Vec<(String, String)>>)
    ensures
        match r {
            Some(v) => flatten_pairs(views_of_languages(v@)) == views_of_strings(flat@),
            None => views_of_strings(flat@).len() % 2 != 0,
        },
{
    if flat.len() % 2 != 0 {
        return None;
    }
    let n = flat.len() / 2;
    let mut out: Vec<(String, String)> = Vec::new();
    let mut i: usize = 0;
    proof {
        assert(flatten_pairs(views_of_languages(out@)) =~= views_of_strings(flat@).take(0));
    }
    while i < n
        invariant
            0 <= i <= n,
            n == flat@.len() / 2,
            flat@.len() % 2 == 0,
            flat@.len() <= usize::MAX,
            flatten_pairs(views_of_languages(out@)) == views_of_strings(flat@).take(2 * i),
        decreases n - i,
    {
        let ghost prev = views_of_languages(out@);
        let code = flat[2 * i].clone();
        let name = flat[2 * i + 1].clone();
        out.push((code, name));
        i = i + 1;
        proof {
            let f = views_of_strings(flat@);
            lemma_flatten_pairs_push(prev, (f[2 * i - 2], f[2 * i - 1]));
            assert(views_of_languages(out@) =~= prev.push((f[2 * i - 2], f[2 * i - 1])));
            assert(f.take(2 * i) =~= f.take(2 * i - 2) + seq![f[2 * i - 2], f[2 * i - 1]]);
            assert(flatten_pairs(views_of_languages(out@)) =~= f.take(2 * i as int));
        }
    }
    proof {
        assert(views_of_strings(flat@).take(2 * n as int) =~= views_of_strings(flat@));
    }
    Some(out)
}

/// Rebuild a palette from packed channel bytes; fails unless the bytes split
/// into triples.
fn unflatten_palette(flat: Vec<u8>) -> (r: Option<Vec<Rgb>>)
    ensures
        match r {
            Some(v) => flatten_rgb(v@) == flat@,
            None => flat@.len() % 3 != 0,
        },
{
    if flat.len() % 3 != 0 {
        return None;
    }
    let n = flat.len() / 3;
    let mut out: Vec<Rgb> = Vec::new();
    let mut i: usize = 0;
    proof {
        assert(flatten_rgb(out@) =~= flat@.take(0));
    }
    while i < n
        invariant
            0 <= i <= n,
            n == flat@.len() / 3,
            flat@.len() % 3 == 0,
            flat@.len() <= usize::MAX,
            flatten_rgb(out@) == flat@.take(3 * i),
        decreases n - i,
    {
        let ghost prev = out@;
        let c = Rgb { r: flat[3 * i], g: flat[3 * i + 1], b: flat[3 * i + 2] };
        out.push(c);
        i = i + 1;
        proof {
            lemma_flatten_rgb_push(prev, c);
            assert(flat@.take(3 * i) =~= flat@.take(3 * i - 3) + seq![flat@[3 * i - 3], flat@[3 * i
                - 2], flat@[3 * i - 1]]);
            assert(flatten_rgb(out@) =~= flat@.take(3 * i as int));
        }
    }
    proof {
        assert(flat@.take(3 * n as int) =~= flat@);
    }
    Some(out)
}

/// Two records encoded at the same position are the same record.
#[verifier::rlimit(100)]
#[verifier::spinoff_prover]
pub proof fn lemma_rec_at_unique(b: Seq<u8>, pos: int, r1: RecordView, r2: RecordView)
    requires
        rec_enc_at(b, pos, r1),
        rec_enc_at(b, pos, r2),
    ensures
        r1 == r2,
{
    // Walk the field chain of both candidate records in lockstep: each field
    // is forced by the bytes, so the fields agree pairwise.
    assert(bytes_at(b, pos, enc_rec_from(r1, 0)) && bytes_at(b, pos, enc_rec_from(r2, 0)));
    let p0 = pos;
    lemma_bytes_at_concat(b, p0, enc_field(r1, 0), enc_rec_from(r1, 1));
    lemma_bytes_at_concat(b, p0, enc_field(r2, 0), enc_rec_from(r2, 1));
    lemma_str_at_unique(b, p0, r1.country.name, r2.country.name);
    let p1 = p0 + enc_field(r1, 0).len();
    lemma_bytes_at_concat(b, p1, enc_field(r1, 1), enc_rec_from(r1, 2));
    lemma_bytes_at_concat(b, p1, enc_field(r2, 1), enc_rec_from(r2, 2));
    lemma_vec_str_at_unique(b, p1, r1.country.tld, r2.country.tld);
    let p2 = p1 + enc_field(r1, 1).len();
    lemma_bytes_at_concat(b, p2, enc_field(r1, 2), enc_rec_from(r1, 3));
    lemma_bytes_at_concat(b, p2, enc_field(r2, 2), enc_rec_from(r2, 3));
    lemma_str_at_unique(b, p2, r1.country.cca3, r2.country.cca3);
    let p3 = p2 + enc_field(r1, 2).len();
    lemma_bytes_at_concat(b, p3, enc_field(r1, 3), enc_rec_from(r1, 4));
    lemma_bytes_at_concat(b, p3, enc_field(r2, 3), enc_rec_from(r2, 4));
    lemma_str_at_unique(b, p3, r1.country.cca2, r2.country.cca2);
    let p4 = p3 + enc_field(r1, 3).len();
    lemma_bytes_at_concat(b, p4, enc_field(r1, 4), enc_rec_from(r1, 5));
    lemma_bytes_at_concat(b, p4, enc_field(r2, 4), enc_rec_from(r2, 5));
    lemma_vec_str_at_unique(
        b,
        p4,
        flatten_triples(r1.country.currencies),
        flatten_triples(r2.country.currencies),
    );
    lemma_flatten_triples_injective(r1.country.currencies, r2.country.currencies);
    let p5 = p4 + enc_field(r1, 4).len();
    lemma_bytes_at_concat(b, p5, enc_field(r1, 5), enc_rec_from(r1, 6));
    lemma_bytes_at_concat(b, p5, enc_field(r2, 5), enc_rec_from(r2, 6));
    lemma_vec_str_at_unique(
        b,
        p5,
        flatten_pairs(r1.country.languages),
        flatten_pairs(r2.country.languages),
    );
    lemma_flatten_pairs_injective(r1.country.languages, r2.country.languages);
    let p6 = p5 + enc_field(r1, 5).len();
    lemma_bytes_at_concat(b, p6, enc_field(r1, 6), enc_rec_from(r1, 7));
    lemma_bytes_at_concat(b, p6, enc_field(r2, 6), enc_rec_from(r2, 7));
    lemma_vec_str_at_unique(b, p6, r1.country.neighbours, r2.country.neighbours);
    let p7 = p6 + enc_field(r1, 6).len();
    lemma_bytes_at_concat(b, p7, enc_field(r1, 7), enc_rec_from(r1, 8));
    lemma_bytes_at_concat(b, p7, enc_field(r2, 7), enc_rec_from(r2, 8));
    lemma_u64_at_unique(b, p7, r1.country.area_m2, r2.country.area_m2);
    let p8 = p7 + enc_field(r1, 7).len();
    lemma_bytes_at_concat(b, p8, enc_field(r1, 8), enc_rec_from(r1, 9));
    lemma_bytes_at_concat(b, p8, enc_field(r2, 8), enc_rec_from(r2, 9));
    lemma_str_at_unique(b, p8, r1.country.emoji, r2.country.emoji);
    let p9 = p8 + enc_field(r1, 8).len();
    lemma_bytes_at_concat(b, p9, enc_field(r1, 9), enc_rec_from(r1, 10));
    lemma_bytes_at_concat(b, p9, enc_field(r2, 9), enc_rec_from(r2, 10));
    lemma_u64_at_unique(b, p9, r1.country.population, r2.country.population);
    let p10 = p9 + enc_field(r1, 9).len();
    lemma_bytes_at_concat(b, p10, enc_field(r1, 10), enc_rec_from(r1, 11));
    lemma_bytes_at_concat(b, p10, enc_field(r2, 10), enc_rec_from(r2, 11));
    lemma_vec_str_at_unique(b, p10, r1.country.continents, r2.country.continents);
    let p11 = p10 + enc_field(r1, 10).len();
    lemma_bytes_at_concat(b, p11, enc_field(r1, 11), enc_rec_from(r1, 12));
    lemma_bytes_at_concat(b, p11, enc_field(r2, 11), enc_rec_from(r2, 12));
    lemma_str_at_unique(b, p11, r1.country.flag_url, r2.country.flag_url);
    let p12 = p11 + enc_field(r1, 11).len();
    lemma_bytes_at_concat(b, p12, enc_field(r1, 12), enc_rec_from(r1, 13));
    lemma_bytes_at_concat(b, p12, enc_field(r2, 12), enc_rec_from(r2, 13));
    lemma_opt_str_at_unique(b, p12, r1.country.flag_description, r2.country.flag_description);
    let p13 = p12 + enc_field(r1, 12).len();
    lemma_bytes_at_concat(b, p13, enc_field(r1, 13), enc_rec_from(r1, 14));
    lemma_bytes_at_concat(b, p13, enc_field(r2, 13), enc_rec_from(r2, 14));
    lemma_vec_str_at_unique(b, p13, r1.country.capital, r2.country.capital);
    let p14 = p13 + enc_field(r1, 13).len();
    lemma_bytes_at_concat(b, p14, enc_field(r1, 14), enc_rec_from(r1, 15));
    lemma_bytes_at_concat(b, p14, enc_field(r2, 14), enc_rec_from(r2, 15));
    lemma_str_at_unique(b, p14, r1.country.driving_side, r2.country.driving_side);
    let p15 = p14 + enc_field(r1, 14).len();
    lemma_bytes_at_concat(b, p15, enc_field(r1, 15), enc_rec_from(r1, 16));
    lemma_bytes_at_concat(b, p15, enc_field(r2, 15), enc_rec_from(r2, 16));
    lemma_str_at_unique(b, p15, r1.country.idd_root, r2.country.idd_root);
    let p16 = p15 + enc_field(r1, 15).len();
    lemma_bytes_at_concat(b, p16, enc_field(r1, 16), enc_rec_from(r1, 17));
    lemma_bytes_at_concat(b, p16, enc_field(r2, 16), enc_rec_from(r2, 17));
    lemma_vec_str_at_unique(b, p16, r1.country.idd_suffixes, r2.country.idd_suffixes);
    let p17 = p16 + enc_field(r1, 16).len();
    lemma_bytes_at_concat(b, p17, enc_field(r1, 17), enc_rec_from(r1, 18));
    lemma_bytes_at_concat(b, p17, enc_field(r2, 17), enc_rec_from(r2, 18));
    lemma_str_at_unique(b, p17, r1.assets.plain, r2.assets.plain);
    let p18 = p17 + enc_field(r1, 17).len();
    lemma_bytes_at_concat(b, p18, enc_field(r1, 18), enc_rec_from(r1, 19));
    lemma_bytes_at_concat(b, p18, enc_field(r2, 18), enc_rec_from(r2, 19));
    lemma_str_at_unique(b, p18, r1.assets.colored, r2.assets.colored);
    let p19 = p18 + enc_field(r1, 18).len();
    lemma_bytes_at_concat(b, p19, enc_field(r1, 19), enc_rec_from(r1, 20));
    lemma_bytes_at_concat(b, p19, enc_field(r2, 19), enc_rec_from(r2, 20));
    lemma_bytes_arr_at_unique(b, p19, flatten_rgb(r1.assets.palette), flatten_rgb(
        r2.assets.palette,
    ));
    lemma_flatten_rgb_injective(r1.assets.palette, r2.assets.palette);
    let p20 = p19 + enc_field(r1, 19).len();
    lemma_bytes_at_concat(b, p20, enc_field(r1, 20), enc_rec_from(r1, 21));
    lemma_bytes_at_concat(b, p20, enc_field(r2, 20), enc_rec_from(r2, 21));
    lemma_rgb_at_unique(b, p20, r1.assets.brightest, r2.assets.brightest);
    let p21 = p20 + enc_field(r1, 20).len();
    lemma_bytes_at_concat(b, p21, enc_field(r1, 21), enc_rec_from(r1, 22));
    lemma_bytes_at_concat(b, p21, enc_field(r2, 21), enc_rec_from(r2, 22));
    lemma_u32_at_unique(b, p21, r1.record_id, r2.record_id);
    assert(r1.country == r2.country);
    assert(r1.assets == r2.assets);
}


/// Read a currency list stored as a flat string list of code, name and
/// symbol triples.  On failure, no currency list's encoding starts here.
fn read_currencies(buf: &Vec<u8>, pos: usize) -> (r: Option<(Vec<(String, Currency)>, usize)>)
    ensures
        match r {
            Some((v, end)) => {
                let items = flatten_triples(views_of_currencies(v@));
                &&& vec_str_ok(items)
                &&& end == pos + enc_vec_str(items).len()
                &&& bytes_at(buf@, pos as int, enc_vec_str(items))
            },
            None => forall|cs: Seq<(Seq<char>, Seq<char>, Seq<char>)>|
                !vec_str_enc_at(buf@, pos as int, flatten_triples(cs)),
        },
{
    let (flat, end) = match read_vec_str(buf, pos) {
        Some(x) => x,
        None => {
            return None;
        },
    };
    let ghost fv = views_of_strings(flat@);
    match unflatten_currencies(flat) {
        Some(v) => {
            proof {
                assert(flatten_triples(views_of_currencies(v@)) == fv);
            }
            Some((v, end))
        },
        None => {
            proof {
                assert forall|cs: Seq<(Seq<char>, Seq<char>, Seq<char>)>|
                    !vec_str_enc_at(buf@, pos as int, flatten_triples(cs)) by {
                    if vec_str_enc_at(buf@, pos as int, flatten_triples(cs)) {
                        lemma_vec_str_at_unique(buf@, pos as int, flatten_triples(cs), fv);
                        lemma_flatten_triples_len(cs);
                        assert(fv.len() % 3 == 0) by {
                            assert((3 * cs.len()) % 3 == 0) by (nonlinear_arith);
                        }
                    }
                }
            }
            None
        },
    }
}

/// Read a language list stored as a flat string list of code and name pairs.
/// On failure, no language list's encoding starts here.
fn read_languages(buf: &Vec<u8>, pos: usize) -> (r: Option<(Vec<(String, String)>, usize)>)
    ensures
        match r {
            Some((v, end)) => {
                let items = flatten_pairs(views_of_languages(v@));
                &&& vec_str_ok(items)
                &&& end == pos + enc_vec_str(items).len()
                &&& bytes_at(buf@, pos as int, enc_vec_str(items))
            },
            None => forall|ls: Seq<(Seq<char>, Seq<char>)>|
                !vec_str_enc_at(buf@, pos as int, flatten_pairs(ls)),
        },
{
    let (flat, end) = match read_vec_str(buf, pos) {
        Some(x) => x,
        None => {
            return None;
        },
    };
    let ghost fv = views_of_strings(flat@);
    match unflatten_languages(flat) {
        Some(v) => {
            proof {
                assert(flatten_pairs(views_of_languages(v@)) == fv);
            }
            Some((v, end))
        },
        None => {
            proof {
                assert forall|ls: Seq<(Seq<char>, Seq<char>)>|
                    !vec_str_enc_at(buf@, pos as int, flatten_pairs(ls)) by {
                    if vec_str_enc_at(buf@, pos as int, flatten_pairs(ls)) {
                        lemma_vec_str_at_unique(buf@, pos as int, flatten_pairs(ls), fv);
                        lemma_flatten_pairs_len(ls);
                        assert(fv.len() % 2 == 0) by {
                            assert((2 * ls.len()) % 2 == 0) by (nonlinear_arith);
                        }
                    }
                }
            }
            None
        },
    }
}

/// Read a palette stored as packed channel bytes.  On failure, no palette's
/// encoding starts here.
fn read_palette(buf: &Vec<u8>, pos: usize) -> (r: Option<(Vec<Rgb>, usize)>)
    ensures
        match r {
            Some((v, end)) => {
                let raw = flatten_rgb(v@);
                &&& bytes_arr_ok(raw)
                &&& end == pos + enc_bytes_arr(raw).len()
                &&& bytes_at(buf@, pos as int, enc_bytes_arr(raw))
            },
            None => forall|ps: Seq<Rgb>| !bytes_arr_enc_at(buf@, pos as int, flatten_rgb(ps)),
        },
{
    let (flat, end) = match read_bytes_arr(buf, pos) {
        Some(x) => x,
        None => {
            return None;
        },
    };
    let ghost fv = flat@;
    match unflatten_palette(flat) {
        Some(v) => {
            proof {
                assert(flatten_rgb(v@) == fv);
            }
            Some((v, end))
        },
        None => {
            proof {
                assert forall|ps: Seq<Rgb>|
                    !bytes_arr_enc_at(buf@, pos as int, flatten_rgb(ps)) by {
                    if bytes_arr_enc_at(buf@, pos as int, flatten_rgb(ps)) {
                        lemma_bytes_arr_at_unique(buf@, pos as int, flatten_rgb(ps), fv);
                        lemma_flatten_rgb_len(ps);
                        assert(fv.len() % 3 == 0) by {
                            assert((3 * ps.len()) % 3 == 0) by (nonlinear_arith);
                        }
                    }
                }
            }
            None
        },
    }
}

/// Read fields 0 to 4 of a record.
#[verifier::rlimit(100)]
#[verifier::spinoff_prover]
fn read_fields_a(buf: &Vec<u8>, pos: usize, cur: usize) -> (r: Option<((String, Vec<String>, String, String, Vec<(String, Currency)>), usize)>)
    requires
        forall|rv: RecordView| #[trigger] rec_enc_at(buf@, pos as int, rv) ==> bytes_at(
            buf@,
            cur as int,
            enc_rec_from(rv, 0),
        ),
    ensures
        match r {
            Some((vals, end)) => {
                let e = enc_str(vals.0@) + enc_vec_str(views_of_strings(vals.1@)) + enc_str(vals.2@) + enc_str(vals.3@) + enc_vec_str(flatten_triples(views_of_currencies(vals.4@)));
                &&& bytes_at(buf@, cur as int, e)
                &&& end == cur + e.len()
                &&& str_ok(vals.0@)
                &&& vec_str_ok(views_of_strings(vals.1@))
                &&& str_ok(vals.2@)
                &&& str_ok(vals.3@)
                &&& vec_str_ok(flatten_triples(views_of_currencies(vals.4@)))
                &&& forall|rv: RecordView| #[trigger] rec_enc_at(buf@, pos as int, rv)
                    ==> bytes_at(buf@, end as int, enc_rec_from(rv, 5))
            },
            None => forall|rv: RecordView| !rec_enc_at(buf@, pos as int, rv),
        },
{
    let (g0, cur1) = match read_str(buf, cur) {
        Some(x) => x,
        None => {
            proof {
                assert forall|rv: RecordView| !rec_enc_at(buf@, pos as int, rv) by {
                    if rec_enc_at(buf@, pos as int, rv) {
                        assert(bytes_at(buf@, cur as int, enc_rec_from(rv, 0)));
                        assert(enc_rec_from(rv, 0) == enc_field(rv, 0) + enc_rec_from(
                            rv,
                            1,
                        ));
                        lemma_bytes_at_concat(
                            buf@,
                            cur as int,
                            enc_field(rv, 0),
                            enc_rec_from(rv, 1),
                        );
                        assert(str_enc_at(buf@, cur as int, rv.country.name));
                    }
                }
            }
            return None;
        },
    };
    let ghost v0 = g0@;
    proof {
        assert forall|rv: RecordView| #[trigger] rec_enc_at(buf@, pos as int, rv) implies bytes_at(
            buf@,
            cur1 as int,
            enc_rec_from(rv, 1),
        ) by {
            assert(bytes_at(buf@, cur as int, enc_rec_from(rv, 0)));
            assert(enc_rec_from(rv, 0) == enc_field(rv, 0) + enc_rec_from(rv, 1));
            lemma_bytes_at_concat(buf@, cur as int, enc_field(rv, 0), enc_rec_from(
                rv,
                1,
            ));
            lemma_str_at_unique(buf@, cur as int, rv.country.name, v0);
        }
    }
    let (g1, cur2) = match read_vec_str(buf, cur1) {
        Some(x) => x,
        None => {
            proof {
                assert forall|rv: RecordView| !rec_enc_at(buf@, pos as int, rv) by {
                    if rec_enc_at(buf@, pos as int, rv) {
                        assert(bytes_at(buf@, cur1 as int, enc_rec_from(rv, 1)));
                        assert(enc_rec_from(rv, 1) == enc_field(rv, 1) + enc_rec_from(
                            rv,
                            2,
                        ));
                        lemma_bytes_at_concat(
                            buf@,
                            cur1 as int,
                            enc_field(rv, 1),
                            enc_rec_from(rv, 2),
                        );
                        assert(vec_str_enc_at(buf@, cur1 as int, rv.country.tld));
                    }
                }
            }
            return None;
        },
    };
    let ghost v1 = views_of_strings(g1@);
    proof {
        assert forall|rv: RecordView| #[trigger] rec_enc_at(buf@, pos as int, rv) implies bytes_at(
            buf@,
            cur2 as int,
            enc_rec_from(rv, 2),
        ) by {
            assert(bytes_at(buf@, cur1 as int, enc_rec_from(rv, 1)));
            assert(enc_rec_from(rv, 1) == enc_field(rv, 1) + enc_rec_from(rv, 2));
            lemma_bytes_at_concat(buf@, cur1 as int, enc_field(rv, 1), enc_rec_from(
                rv,
                2,
            ));
            lemma_vec_str_at_unique(buf@, cur1 as int, rv.country.tld, v1);
        }
    }
    let (g2, cur3) = match read_str(buf, cur2) {
        Some(x) => x,
        None => {
            proof {
                assert forall|rv: RecordView| !rec_enc_at(buf@, pos as int, rv) by {
                    if rec_enc_at(buf@, pos as int, rv) {
                        assert(bytes_at(buf@, cur2 as int, enc_rec_from(rv, 2)));
                        assert(enc_rec_from(rv, 2) == enc_field(rv, 2) + enc_rec_from(
                            rv,
                            3,
                        ));
                        lemma_bytes_at_concat(
                            buf@,
                            cur2 as int,
                            enc_field(rv, 2),
                            enc_rec_from(rv, 3),
                        );
                        assert(str_enc_at(buf@, cur2 as int, rv.country.cca3));
                    }
                }
            }
            return None;
        },
    };
    let ghost v2 = g2@;
    proof {
        assert forall|rv: RecordView| #[trigger] rec_enc_at(buf@, pos as int, rv) implies bytes_at(
            buf@,
            cur3 as int,
            enc_rec_from(rv, 3),
        ) by {
            assert(bytes_at(buf@, cur2 as int, enc_rec_from(rv, 2)));
            assert(enc_rec_from(rv, 2) == enc_field(rv, 2) + enc_rec_from(rv, 3));
            lemma_bytes_at_concat(buf@, cur2 as int, enc_field(rv, 2), enc_rec_from(
                rv,
                3,
            ));
            lemma_str_at_unique(buf@, cur2 as int, rv.country.cca3, v2);
        }
    }
    let (g3, cur4) = match read_str(buf, cur3) {
        Some(x) => x,
        None => {
            proof {
                assert forall|rv: RecordView| !rec_enc_at(buf@, pos as int, rv) by {
                    if rec_enc_at(buf@, pos as int, rv) {
                        assert(bytes_at(buf@, cur3 as int, enc_rec_from(rv, 3)));
                        assert(enc_rec_from(rv, 3) == enc_field(rv, 3) + enc_rec_from(
                            rv,
                            4,
                        ));
                        lemma_bytes_at_concat(
                            buf@,
                            cur3 as int,
                            enc_field(rv, 3),
                            enc_rec_from(rv, 4),
                        );
                        assert(str_enc_at(buf@, cur3 as int, rv.country.cca2));
                    }
                }
            }
            return None;
        },
    };
    let ghost v3 = g3@;
    proof {
        assert forall|rv: RecordView| #[trigger] rec_enc_at(buf@, pos as int, rv) implies bytes_at(
            buf@,
            cur4 as int,
            enc_rec_from(rv, 4),
        ) by {
            assert(bytes_at(buf@, cur3 as int, enc_rec_from(rv, 3)));
            assert(enc_rec_from(rv, 3) == enc_field(rv, 3) + enc_rec_from(rv, 4));
            lemma_bytes_at_concat(buf@, cur3 as int, enc_field(rv, 3), enc_rec_from(
                rv,
                4,
            ));
            lemma_str_at_unique(buf@, cur3 as int, rv.country.cca2, v3);
        }
    }
    let (g4, cur5) = match read_currencies(buf, cur4) {
        Some(x) => x,
        None => {
            proof {
                assert forall|rv: RecordView| !rec_enc_at(buf@, pos as int, rv) by {
                    if rec_enc_at(buf@, pos as int, rv) {
                        assert(bytes_at(buf@, cur4 as int, enc_rec_from(rv, 4)));
                        assert(enc_rec_from(rv, 4) == enc_field(rv, 4) + enc_rec_from(
                            rv,
                            5,
                        ));
                        lemma_bytes_at_concat(
                            buf@,
                            cur4 as int,
                            enc_field(rv, 4),
                            enc_rec_from(rv, 5),
                        );
                        assert(vec_str_enc_at(buf@, cur4 as int, flatten_triples(rv.country.currencies)));
                    }
                }
            }
            return None;
        },
    };
    let ghost v4 = views_of_currencies(g4@);
    proof {
        assert forall|rv: RecordView| #[trigger] rec_enc_at(buf@, pos as int, rv) implies bytes_at(
            buf@,
            cur5 as int,
            enc_rec_from(rv, 5),
        ) by {
            assert(bytes_at(buf@, cur4 as int, enc_rec_from(rv, 4)));
            assert(enc_rec_from(rv, 4) == enc_field(rv, 4) + enc_rec_from(rv, 5));
            lemma_bytes_at_concat(buf@, cur4 as int, enc_field(rv, 4), enc_rec_from(
                rv,
                5,
            ));
            lemma_vec_str_at_unique(buf@, cur4 as int, flatten_triples(rv.country.currencies), flatten_triples(v4));
        }
    }
    proof {
        assert(bytes_at(buf@, cur as int, enc_str(v0)));
        lemma_bytes_at_concat(buf@, cur as int, enc_str(v0), enc_vec_str(v1));
        assert(bytes_at(buf@, cur as int, enc_str(v0) + enc_vec_str(v1)));
        lemma_bytes_at_concat(buf@, cur as int, enc_str(v0) + enc_vec_str(v1), enc_str(v2));
        assert(bytes_at(buf@, cur as int, enc_str(v0) + enc_vec_str(v1) + enc_str(v2)));
        lemma_bytes_at_concat(buf@, cur as int, enc_str(v0) + enc_vec_str(v1) + enc_str(v2), enc_str(v3));
        assert(bytes_at(buf@, cur as int, enc_str(v0) + enc_vec_str(v1) + enc_str(v2) + enc_str(v3)));
        lemma_bytes_at_concat(buf@, cur as int, enc_str(v0) + enc_vec_str(v1) + enc_str(v2) + enc_str(v3), enc_vec_str(flatten_triples(v4)));
        assert(bytes_at(buf@, cur as int, enc_str(v0) + enc_vec_str(v1) + enc_str(v2) + enc_str(v3) + enc_vec_str(flatten_triples(v4))));
    }
    Some(((g0, g1, g2, g3, g4), cur5))
}

/// Read fields 5 to 8 of a record.
#[verifier::rlimit(100)]
#[verifier::spinoff_prover]
fn read_fields_b(buf: &Vec<u8>, pos: usize, cur: usize) -> (r: Option<((Vec<(String, String)>, Vec<String>, u64, String), usize)>)
    requires
        forall|rv: RecordView| #[trigger] rec_enc_at(buf@, pos as int, rv) ==> bytes_at(
            buf@,
            cur as int,
            enc_rec_from(rv, 5),
        ),
    ensures
        match r {
            Some((vals, end)) => {
                let e = enc_vec_str(flatten_pairs(views_of_languages(vals.0@))) + enc_vec_str(views_of_strings(vals.1@)) + enc_u64(vals.2) + enc_str(vals.3@);
                &&& bytes_at(buf@, cur as int, e)
                &&& end == cur + e.len()
                &&& vec_str_ok(flatten_pairs(views_of_languages(vals.0@)))
                &&& vec_str_ok(views_of_strings(vals.1@))
                &&& str_ok(vals.3@)
                &&& forall|rv: RecordView| #[trigger] rec_enc_at(buf@, pos as int, rv)
                    ==> bytes_at(buf@, end as int, enc_rec_from(rv, 9))
            },
            None => forall|rv: RecordView| !rec_enc_at(buf@, pos as int, rv),
        },
{
    let (g5, cur6) = match read_languages(buf, cur) {
        Some(x) => x,
        None => {
            proof {
                assert forall|rv: RecordView| !rec_enc_at(buf@, pos as int, rv) by {
                    if rec_enc_at(buf@, pos as int, rv) {
                        assert(bytes_at(buf@, cur as int, enc_rec_from(rv, 5)));
                        assert(enc_rec_from(rv, 5) == enc_field(rv, 5) + enc_rec_from(
                            rv,
                            6,
                        ));
                        lemma_bytes_at_concat(
                            buf@,
                            cur as int,
                            enc_field(rv, 5),
                            enc_rec_from(rv, 6),
                        );
                        assert(vec_str_enc_at(buf@, cur as int, flatten_pairs(rv.country.languages)));
                    }
                }
            }
            return None;
        },
    };
    let ghost v5 = views_of_languages(g5@);
    proof {
        assert forall|rv: RecordView| #[trigger] rec_enc_at(buf@, pos as int, rv) implies bytes_at(
            buf@,
            cur6 as int,
            enc_rec_from(rv, 6),
        ) by {
            assert(bytes_at(buf@, cur as int, enc_rec_from(rv, 5)));
            assert(enc_rec_from(rv, 5) == enc_field(rv, 5) + enc_rec_from(rv, 6));
            lemma_bytes_at_concat(buf@, cur as int, enc_field(rv, 5), enc_rec_from(
                rv,
                6,
            ));
            lemma_vec_str_at_unique(buf@, cur as int, flatten_pairs(rv.country.languages), flatten_pairs(v5));
        }
    }
    let (g6, cur7) = match read_vec_str(buf, cur6) {
        Some(x) => x,
        None => {
            proof {
                assert forall|rv: RecordView| !rec_enc_at(buf@, pos as int, rv) by {
                    if rec_enc_at(buf@, pos as int, rv) {
                        assert(bytes_at(buf@, cur6 as int, enc_rec_from(rv, 6)));
                        assert(enc_rec_from(rv, 6) == enc_field(rv, 6) + enc_rec_from(
                            rv,
                            7,
                        ));
                        lemma_bytes_at_concat(
                            buf@,
                            cur6 as int,
                            enc_field(rv, 6),
                            enc_rec_from(rv, 7),
                        );
                        assert(vec_str_enc_at(buf@, cur6 as int, rv.country.neighbours));
                    }
                }
            }
            return None;
        },
    };
    let ghost v6 = views_of_strings(g6@);
    proof {
        assert forall|rv: RecordView| #[trigger] rec_enc_at(buf@, pos as int, rv) implies bytes_at(
            buf@,
            cur7 as int,
            enc_rec_from(rv, 7),
        ) by {
            assert(bytes_at(buf@, cur6 as int, enc_rec_from(rv, 6)));
            assert(enc_rec_from(rv, 6) == enc_field(rv, 6) + enc_rec_from(rv, 7));
            lemma_bytes_at_concat(buf@, cur6 as int, enc_field(rv, 6), enc_rec_from(
                rv,
                7,
            ));
            lemma_vec_str_at_unique(buf@, cur6 as int, rv.country.neighbours, v6);
        }
    }
    let (g7, cur8) = match read_u64(buf, cur7) {
        Some(x) => x,
        None => {
            proof {
                assert forall|rv: RecordView| !rec_enc_at(buf@, pos as int, rv) by {
                    if rec_enc_at(buf@, pos as int, rv) {
                        assert(bytes_at(buf@, cur7 as int, enc_rec_from(rv, 7)));
                        assert(enc_rec_from(rv, 7) == enc_field(rv, 7) + enc_rec_from(
                            rv,
                            8,
                        ));
                        lemma_bytes_at_concat(
                            buf@,
                            cur7 as int,
                            enc_field(rv, 7),
                            enc_rec_from(rv, 8),
                        );
                        assert(bytes_at(buf@, cur7 as int, enc_u64(rv.country.area_m2)));
                    }
                }
            }
            return None;
        },
    };
    let ghost v7 = g7;
    proof {
        assert forall|rv: RecordView| #[trigger] rec_enc_at(buf@, pos as int, rv) implies bytes_at(
            buf@,
            cur8 as int,
            enc_rec_from(rv, 8),
        ) by {
            assert(bytes_at(buf@, cur7 as int, enc_rec_from(rv, 7)));
            assert(enc_rec_from(rv, 7) == enc_field(rv, 7) + enc_rec_from(rv, 8));
            lemma_bytes_at_concat(buf@, cur7 as int, enc_field(rv, 7), enc_rec_from(
                rv,
                8,
            ));
            lemma_u64_at_unique(buf@, cur7 as int, rv.country.area_m2, v7);
        }
    }
    let (g8, cur9) = match read_str(buf, cur8) {
        Some(x) => x,
        None => {
            proof {
                assert forall|rv: RecordView| !rec_enc_at(buf@, pos as int, rv) by {
                    if rec_enc_at(buf@, pos as int, rv) {
                        assert(bytes_at(buf@, cur8 as int, enc_rec_from(rv, 8)));
                        assert(enc_rec_from(rv, 8) == enc_field(rv, 8) + enc_rec_from(
                            rv,
                            9,
                        ));
                        lemma_bytes_at_concat(
                            buf@,
                            cur8 as int,
                            enc_field(rv, 8),
                            enc_rec_from(rv, 9),
                        );
                        assert(str_enc_at(buf@, cur8 as int, rv.country.emoji));
                    }
                }
            }
            return None;
        },
    };
    let ghost v8 = g8@;
    proof {
        assert forall|rv: RecordView| #[trigger] rec_enc_at(buf@, pos as int, rv) implies bytes_at(
            buf@,
            cur9 as int,
            enc_rec_from(rv, 9),
        ) by {
            assert(bytes_at(buf@, cur8 as int, enc_rec_from(rv, 8)));
            assert(enc_rec_from(rv, 8) == enc_field(rv, 8) + enc_rec_from(rv, 9));
            lemma_bytes_at_concat(buf@, cur8 as int, enc_field(rv, 8), enc_rec_from(
                rv,
                9,
            ));
            lemma_str_at_unique(buf@, cur8 as int, rv.country.emoji, v8);
        }
    }
    proof {
        assert(bytes_at(buf@, cur as int, enc_vec_str(flatten_pairs(v5))));
        lemma_bytes_at_concat(buf@, cur as int, enc_vec_str(flatten_pairs(v5)), enc_vec_str(v6));
        assert(bytes_at(buf@, cur as int, enc_vec_str(flatten_pairs(v5)) + enc_vec_str(v6)));
        lemma_bytes_at_concat(buf@, cur as int, enc_vec_str(flatten_pairs(v5)) + enc_vec_str(v6), enc_u64(v7));
        assert(bytes_at(buf@, cur as int, enc_vec_str(flatten_pairs(v5)) + enc_vec_str(v6) + enc_u64(v7)));
        lemma_bytes_at_concat(buf@, cur as int, enc_vec_str(flatten_pairs(v5)) + enc_vec_str(v6) + enc_u64(v7), enc_str(v8));
        assert(bytes_at(buf@, cur as int, enc_vec_str(flatten_pairs(v5)) + enc_vec_str(v6) + enc_u64(v7) + enc_str(v8)));
    }
    Some(((g5, g6, g7, g8), cur9))
}

/// Read fields 9 to 12 of a record.
#[verifier::rlimit(100)]
#[verifier::spinoff_prover]
fn read_fields_c(buf: &Vec<u8>, pos: usize, cur: usize) -> (r: Option<((u64, Vec<String>, String, Option<String>), usize)>)
    requires
        forall|rv: RecordView| #[trigger] rec_enc_at(buf@, pos as int, rv) ==> bytes_at(
            buf@,
            cur as int,
            enc_rec_from(rv, 9),
        ),
    ensures
        match r {
            Some((vals, end)) => {
                let e = enc_u64(vals.0) + enc_vec_str(views_of_strings(vals.1@)) + enc_str(vals.2@) + enc_opt_str(view_of_opt_string(vals.3));
                &&& bytes_at(buf@, cur as int, e)
                &&& end == cur + e.len()
                &&& vec_str_ok(views_of_strings(vals.1@))
                &&& str_ok(vals.2@)
                &&& opt_str_ok(view_of_opt_string(vals.3))
                &&& forall|rv: RecordView| #[trigger] rec_enc_at(buf@, pos as int, rv)
                    ==> bytes_at(buf@, end as int, enc_rec_from(rv, 13))
            },
            None => forall|rv: RecordView| !rec_enc_at(buf@, pos as int, rv),
        },
{
    let (g9, cur10) = match read_u64(buf, cur) {
        Some(x) => x,
        None => {
            proof {
                assert forall|rv: RecordView| !rec_enc_at(buf@, pos as int, rv) by {
                    if rec_enc_at(buf@, pos as int, rv) {
                        assert(bytes_at(buf@, cur as int, enc_rec_from(rv, 9)));
                        assert(enc_rec_from(rv, 9) == enc_field(rv, 9) + enc_rec_from(
                            rv,
                            10,
                        ));
                        lemma_bytes_at_concat(
                            buf@,
                            cur as int,
                            enc_field(rv, 9),
                            enc_rec_from(rv, 10),
                        );
                        assert(bytes_at(buf@, cur as int, enc_u64(rv.country.population)));
                    }
                }
            }
            return None;
        },
    };
    let ghost v9 = g9;
    proof {
        assert forall|rv: RecordView| #[trigger] rec_enc_at(buf@, pos as int, rv) implies bytes_at(
            buf@,
            cur10 as int,
            enc_rec_from(rv, 10),
        ) by {
            assert(bytes_at(buf@, cur as int, enc_rec_from(rv, 9)));
            assert(enc_rec_from(rv, 9) == enc_field(rv, 9) + enc_rec_from(rv, 10));
            lemma_bytes_at_concat(buf@, cur as int, enc_field(rv, 9), enc_rec_from(
                rv,
                10,
            ));
            lemma_u64_at_unique(buf@, cur as int, rv.country.population, v9);
        }
    }
    let (g10, cur11) = match read_vec_str(buf, cur10) {
        Some(x) => x,
        None => {
            proof {
                assert forall|rv: RecordView| !rec_enc_at(buf@, pos as int, rv) by {
                    if rec_enc_at(buf@, pos as int, rv) {
                        assert(bytes_at(buf@, cur10 as int, enc_rec_from(rv, 10)));
                        assert(enc_rec_from(rv, 10) == enc_field(rv, 10) + enc_rec_from(
                            rv,
                            11,
                        ));
                        lemma_bytes_at_concat(
                            buf@,
                            cur10 as int,
                            enc_field(rv, 10),
                            enc_rec_from(rv, 11),
                        );
                        assert(vec_str_enc_at(buf@, cur10 as int, rv.country.continents));
                    }
                }
            }
            return None;
        },
    };
    let ghost v10 = views_of_strings(g10@);
    proof {
        assert forall|rv: RecordView| #[trigger] rec_enc_at(buf@, pos as int, rv) implies bytes_at(
            buf@,
            cur11 as int,
            enc_rec_from(rv, 11),
        ) by {
            assert(bytes_at(buf@, cur10 as int, enc_rec_from(rv, 10)));
            assert(enc_rec_from(rv, 10) == enc_field(rv, 10) + enc_rec_from(rv, 11));
            lemma_bytes_at_concat(buf@, cur10 as int, enc_field(rv, 10), enc_rec_from(
                rv,
                11,
            ));
            lemma_vec_str_at_unique(buf@, cur10 as int, rv.country.continents, v10);
        }
    }
    let (g11, cur12) = match read_str(buf, cur11) {
        Some(x) => x,
        None => {
            proof {
                assert forall|rv: RecordView| !rec_enc_at(buf@, pos as int, rv) by {
                    if rec_enc_at(buf@, pos as int, rv) {
                        assert(bytes_at(buf@, cur11 as int, enc_rec_from(rv, 11)));
                        assert(enc_rec_from(rv, 11) == enc_field(rv, 11) + enc_rec_from(
                            rv,
                            12,
                        ));
                        lemma_bytes_at_concat(
                            buf@,
                            cur11 as int,
                            enc_field(rv, 11),
                            enc_rec_from(rv, 12),
                        );
                        assert(str_enc_at(buf@, cur11 as int, rv.country.flag_url));
                    }
                }
            }
            return None;
        },
    };
    let ghost v11 = g11@;
    proof {
        assert forall|rv: RecordView| #[trigger] rec_enc_at(buf@, pos as int, rv) implies bytes_at(
            buf@,
            cur12 as int,
            enc_rec_from(rv, 12),
        ) by {
            assert(bytes_at(buf@, cur11 as int, enc_rec_from(rv, 11)));
            assert(enc_rec_from(rv, 11) == enc_field(rv, 11) + enc_rec_from(rv, 12));
            lemma_bytes_at_concat(buf@, cur11 as int, enc_field(rv, 11), enc_rec_from(
                rv,
                12,
            ));
            lemma_str_at_unique(buf@, cur11 as int, rv.country.flag_url, v11);
        }
    }
    let (g12, cur13) = match read_opt_str(buf, cur12) {
        Some(x) => x,
        None => {
            proof {
                assert forall|rv: RecordView| !rec_enc_at(buf@, pos as int, rv) by {
                    if rec_enc_at(buf@, pos as int, rv) {
                        assert(bytes_at(buf@, cur12 as int, enc_rec_from(rv, 12)));
                        assert(enc_rec_from(rv, 12) == enc_field(rv, 12) + enc_rec_from(
                            rv,
                            13,
                        ));
                        lemma_bytes_at_concat(
                            buf@,
                            cur12 as int,
                            enc_field(rv, 12),
                            enc_rec_from(rv, 13),
                        );
                        assert(opt_str_enc_at(buf@, cur12 as int, rv.country.flag_description));
                    }
                }
            }
            return None;
        },
    };
    let ghost v12 = view_of_opt_string(g12);
    proof {
        assert forall|rv: RecordView| #[trigger] rec_enc_at(buf@, pos as int, rv) implies bytes_at(
            buf@,
            cur13 as int,
            enc_rec_from(rv, 13),
        ) by {
            assert(bytes_at(buf@, cur12 as int, enc_rec_from(rv, 12)));
            assert(enc_rec_from(rv, 12) == enc_field(rv, 12) + enc_rec_from(rv, 13));
            lemma_bytes_at_concat(buf@, cur12 as int, enc_field(rv, 12), enc_rec_from(
                rv,
                13,
            ));
            lemma_opt_str_at_unique(buf@, cur12 as int, rv.country.flag_description, v12);
        }
    }
    proof {
        assert(bytes_at(buf@, cur as int, enc_u64(v9)));
        lemma_bytes_at_concat(buf@, cur as int, enc_u64(v9), enc_vec_str(v10));
        assert(bytes_at(buf@, cur as int, enc_u64(v9) + enc_vec_str(v10)));
        lemma_bytes_at_concat(buf@, cur as int, enc_u64(v9) + enc_vec_str(v10), enc_str(v11));
        assert(bytes_at(buf@, cur as int, enc_u64(v9) + enc_vec_str(v10) + enc_str(v11)));
        lemma_bytes_at_concat(buf@, cur as int, enc_u64(v9) + enc_vec_str(v10) + enc_str(v11), enc_opt_str(v12));
        assert(bytes_at(buf@, cur as int, enc_u64(v9) + enc_vec_str(v10) + enc_str(v11) + enc_opt_str(v12)));
    }
    Some(((g9, g10, g11, g12), cur13))
}

/// Read fields 13 to 16 of a record.
#[verifier::rlimit(100)]
#[verifier::spinoff_prover]
fn read_fields_d(buf: &Vec<u8>, pos: usize, cur: usize) -> (r: Option<((Vec<String>, String, String, Vec<String>), usize)>)
    requires
        forall|rv: RecordView| #[trigger] rec_enc_at(buf@, pos as int, rv) ==> bytes_at(
            buf@,
            cur as int,
            enc_rec_from(rv, 13),
        ),
    ensures
        match r {
            Some((vals, end)) => {
                let e = enc_vec_str(views_of_strings(vals.0@)) + enc_str(vals.1@) + enc_str(vals.2@) + enc_vec_str(views_of_strings(vals.3@));
                &&& bytes_at(buf@, cur as int, e)
                &&& end == cur + e.len()
                &&& vec_str_ok(views_of_strings(vals.0@))
                &&& str_ok(vals.1@)
                &&& str_ok(vals.2@)
                &&& vec_str_ok(views_of_strings(vals.3@))
                &&& forall|rv: RecordView| #[trigger] rec_enc_at(buf@, pos as int, rv)
                    ==> bytes_at(buf@, end as int, enc_rec_from(rv, 17))
            },
            None => forall|rv: RecordView| !rec_enc_at(buf@, pos as int, rv),
        },
{
    let (g13, cur14) = match read_vec_str(buf, cur) {
        Some(x) => x,
        None => {
            proof {
                assert forall|rv: RecordView| !rec_enc_at(buf@, pos as int, rv) by {
                    if rec_enc_at(buf@, pos as int, rv) {
                        assert(bytes_at(buf@, cur as int, enc_rec_from(rv, 13)));
                        assert(enc_rec_from(rv, 13) == enc_field(rv, 13) + enc_rec_from(
                            rv,
                            14,
                        ));
                        lemma_bytes_at_concat(
                            buf@,
                            cur as int,
                            enc_field(rv, 13),
                            enc_rec_from(rv, 14),
                        );
                        assert(vec_str_enc_at(buf@, cur as int, rv.country.capital));
                    }
                }
            }
            return None;
        },
    };
    let ghost v13 = views_of_strings(g13@);
    proof {
        assert forall|rv: RecordView| #[trigger] rec_enc_at(buf@, pos as int, rv) implies bytes_at(
            buf@,
            cur14 as int,
            enc_rec_from(rv, 14),
        ) by {
            assert(bytes_at(buf@, cur as int, enc_rec_from(rv, 13)));
            assert(enc_rec_from(rv, 13) == enc_field(rv, 13) + enc_rec_from(rv, 14));
            lemma_bytes_at_concat(buf@, cur as int, enc_field(rv, 13), enc_rec_from(
                rv,
                14,
            ));
            lemma_vec_str_at_unique(buf@, cur as int, rv.country.capital, v13);
        }
    }
    let (g14, cur15) = match read_str(buf, cur14) {
        Some(x) => x,
        None => {
            proof {
                assert forall|rv: RecordView| !rec_enc_at(buf@, pos as int, rv) by {
                    if rec_enc_at(buf@, pos as int, rv) {
                        assert(bytes_at(buf@, cur14 as int, enc_rec_from(rv, 14)));
                        assert(enc_rec_from(rv, 14) == enc_field(rv, 14) + enc_rec_from(
                            rv,
                            15,
                        ));
                        lemma_bytes_at_concat(
                            buf@,
                            cur14 as int,
                            enc_field(rv, 14),
                            enc_rec_from(rv, 15),
                        );
                        assert(str_enc_at(buf@, cur14 as int, rv.country.driving_side));
                    }
                }
            }
            return None;
        },
    };
    let ghost v14 = g14@;
    proof {
        assert forall|rv: RecordView| #[trigger] rec_enc_at(buf@, pos as int, rv) implies bytes_at(
            buf@,
            cur15 as int,
            enc_rec_from(rv, 15),
        ) by {
            assert(bytes_at(buf@, cur14 as int, enc_rec_from(rv, 14)));
            assert(enc_rec_from(rv, 14) == enc_field(rv, 14) + enc_rec_from(rv, 15));
            lemma_bytes_at_concat(buf@, cur14 as int, enc_field(rv, 14), enc_rec_from(
                rv,
                15,
            ));
            lemma_str_at_unique(buf@, cur14 as int, rv.country.driving_side, v14);
        }
    }
    let (g15, cur16) = match read_str(buf, cur15) {
        Some(x) => x,
        None => {
            proof {
                assert forall|rv: RecordView| !rec_enc_at(buf@, pos as int, rv) by {
                    if rec_enc_at(buf@, pos as int, rv) {
                        assert(bytes_at(buf@, cur15 as int, enc_rec_from(rv, 15)));
                        assert(enc_rec_from(rv, 15) == enc_field(rv, 15) + enc_rec_from(
                            rv,
                            16,
                        ));
                        lemma_bytes_at_concat(
                            buf@,
                            cur15 as int,
                            enc_field(rv, 15),
                            enc_rec_from(rv, 16),
                        );
                        assert(str_enc_at(buf@, cur15 as int, rv.country.idd_root));
                    }
                }
            }
            return None;
        },
    };
    let ghost v15 = g15@;
    proof {
        assert forall|rv: RecordView| #[trigger] rec_enc_at(buf@, pos as int, rv) implies bytes_at(
            buf@,
            cur16 as int,
            enc_rec_from(rv, 16),
        ) by {
            assert(bytes_at(buf@, cur15 as int, enc_rec_from(rv, 15)));
            assert(enc_rec_from(rv, 15) == enc_field(rv, 15) + enc_rec_from(rv, 16));
            lemma_bytes_at_concat(buf@, cur15 as int, enc_field(rv, 15), enc_rec_from(
                rv,
                16,
            ));
            lemma_str_at_unique(buf@, cur15 as int, rv.country.idd_root, v15);
        }
    }
    let (g16, cur17) = match read_vec_str(buf, cur16) {
        Some(x) => x,
        None => {
            proof {
                assert forall|rv: RecordView| !rec_enc_at(buf@, pos as int, rv) by {
                    if rec_enc_at(buf@, pos as int, rv) {
                        assert(bytes_at(buf@, cur16 as int, enc_rec_from(rv, 16)));
                        assert(enc_rec_from(rv, 16) == enc_field(rv, 16) + enc_rec_from(
                            rv,
                            17,
                        ));
                        lemma_bytes_at_concat(
                            buf@,
                            cur16 as int,
                            enc_field(rv, 16),
                            enc_rec_from(rv, 17),
                        );
                        assert(vec_str_enc_at(buf@, cur16 as int, rv.country.idd_suffixes));
                    }
                }
            }
            return None;
        },
    };
    let ghost v16 = views_of_strings(g16@);
    proof {
        assert forall|rv: RecordView| #[trigger] rec_enc_at(buf@, pos as int, rv) implies bytes_at(
            buf@,
            cur17 as int,
            enc_rec_from(rv, 17),
        ) by {
            assert(bytes_at(buf@, cur16 as int, enc_rec_from(rv, 16)));
            assert(enc_rec_from(rv, 16) == enc_field(rv, 16) + enc_rec_from(rv, 17));
            lemma_bytes_at_concat(buf@, cur16 as int, enc_field(rv, 16), enc_rec_from(
                rv,
                17,
            ));
            lemma_vec_str_at_unique(buf@, cur16 as int, rv.country.idd_suffixes, v16);
        }
    }
    proof {
        assert(bytes_at(buf@, cur as int, enc_vec_str(v13)));
        lemma_bytes_at_concat(buf@, cur as int, enc_vec_str(v13), enc_str(v14));
        assert(bytes_at(buf@, cur as int, enc_vec_str(v13) + enc_str(v14)));
        lemma_bytes_at_concat(buf@, cur as int, enc_vec_str(v13) + enc_str(v14), enc_str(v15));
        assert(bytes_at(buf@, cur as int, enc_vec_str(v13) + enc_str(v14) + enc_str(v15)));
        lemma_bytes_at_concat(buf@, cur as int, enc_vec_str(v13) + enc_str(v14) + enc_str(v15), enc_vec_str(v16));
        assert(bytes_at(buf@, cur as int, enc_vec_str(v13) + enc_str(v14) + enc_str(v15) + enc_vec_str(v16)));
    }
    Some(((g13, g14, g15, g16), cur17))
}

/// Read fields 17 to 21 of a record.
#[verifier::rlimit(100)]
#[verifier::spinoff_prover]
fn read_fields_e(buf: &Vec<u8>, pos: usize, cur: usize) -> (r: Option<((String, String, Vec<Rgb>, Rgb, u32), usize)>)
    requires
        forall|rv: RecordView| #[trigger] rec_enc_at(buf@, pos as int, rv) ==> bytes_at(
            buf@,
            cur as int,
            enc_rec_from(rv, 17),
        ),
    ensures
        match r {
            Some((vals, end)) => {
                let e = enc_str(vals.0@) + enc_str(vals.1@) + enc_bytes_arr(flatten_rgb(vals.2@)) + enc_rgb(vals.3) + enc_u32(vals.4);
                &&& bytes_at(buf@, cur as int, e)
                &&& end == cur + e.len()
                &&& str_ok(vals.0@)
                &&& str_ok(vals.1@)
                &&& bytes_arr_ok(flatten_rgb(vals.2@))
                &&& forall|rv: RecordView| #[trigger] rec_enc_at(buf@, pos as int, rv)
                    ==> bytes_at(buf@, end as int, enc_rec_from(rv, 22))
            },
            None => forall|rv: RecordView| !rec_enc_at(buf@, pos as int, rv),
        },
{
    let (g17, cur18) = match read_str(buf, cur) {
        Some(x) => x,
        None => {
            proof {
                assert forall|rv: RecordView| !rec_enc_at(buf@, pos as int, rv) by {
                    if rec_enc_at(buf@, pos as int, rv) {
                        assert(bytes_at(buf@, cur as int, enc_rec_from(rv, 17)));
                        assert(enc_rec_from(rv, 17) == enc_field(rv, 17) + enc_rec_from(
                            rv,
                            18,
                        ));
                        lemma_bytes_at_concat(
                            buf@,
                            cur as int,
                            enc_field(rv, 17),
                            enc_rec_from(rv, 18),
                        );
                        assert(str_enc_at(buf@, cur as int, rv.assets.plain));
                    }
                }
            }
            return None;
        },
    };
    let ghost v17 = g17@;
    proof {
        assert forall|rv: RecordView| #[trigger] rec_enc_at(buf@, pos as int, rv) implies bytes_at(
            buf@,
            cur18 as int,
            enc_rec_from(rv, 18),
        ) by {
            assert(bytes_at(buf@, cur as int, enc_rec_from(rv, 17)));
            assert(enc_rec_from(rv, 17) == enc_field(rv, 17) + enc_rec_from(rv, 18));
            lemma_bytes_at_concat(buf@, cur as int, enc_field(rv, 17), enc_rec_from(
                rv,
                18,
            ));
            lemma_str_at_unique(buf@, cur as int, rv.assets.plain, v17);
        }
    }
    let (g18, cur19) = match read_str(buf, cur18) {
        Some(x) => x,
        None => {
            proof {
                assert forall|rv: RecordView| !rec_enc_at(buf@, pos as int, rv) by {
                    if rec_enc_at(buf@, pos as int, rv) {
                        assert(bytes_at(buf@, cur18 as int, enc_rec_from(rv, 18)));
                        assert(enc_rec_from(rv, 18) == enc_field(rv, 18) + enc_rec_from(
                            rv,
                            19,
                        ));
                        lemma_bytes_at_concat(
                            buf@,
                            cur18 as int,
                            enc_field(rv, 18),
                            enc_rec_from(rv, 19),
                        );
                        assert(str_enc_at(buf@, cur18 as int, rv.assets.colored));
                    }
                }
            }
            return None;
        },
    };
    let ghost v18 = g18@;
    proof {
        assert forall|rv: RecordView| #[trigger] rec_enc_at(buf@, pos as int, rv) implies bytes_at(
            buf@,
            cur19 as int,
            enc_rec_from(rv, 19),
        ) by {
            assert(bytes_at(buf@, cur18 as int, enc_rec_from(rv, 18)));
            assert(enc_rec_from(rv, 18) == enc_field(rv, 18) + enc_rec_from(rv, 19));
            lemma_bytes_at_concat(buf@, cur18 as int, enc_field(rv, 18), enc_rec_from(
                rv,
                19,
            ));
            lemma_str_at_unique(buf@, cur18 as int, rv.assets.colored, v18);
        }
    }
    let (g19, cur20) = match read_palette(buf, cur19) {
        Some(x) => x,
        None => {
            proof {
                assert forall|rv: RecordView| !rec_enc_at(buf@, pos as int, rv) by {
                    if rec_enc_at(buf@, pos as int, rv) {
                        assert(bytes_at(buf@, cur19 as int, enc_rec_from(rv, 19)));
                        assert(enc_rec_from(rv, 19) == enc_field(rv, 19) + enc_rec_from(
                            rv,
                            20,
                        ));
                        lemma_bytes_at_concat(
                            buf@,
                            cur19 as int,
                            enc_field(rv, 19),
                            enc_rec_from(rv, 20),
                        );
                        assert(bytes_arr_enc_at(buf@, cur19 as int, flatten_rgb(rv.assets.palette)));
                    }
                }
            }
            return None;
        },
    };
    let ghost v19 = g19@;
    proof {
        assert forall|rv: RecordView| #[trigger] rec_enc_at(buf@, pos as int, rv) implies bytes_at(
            buf@,
            cur20 as int,
            enc_rec_from(rv, 20),
        ) by {
            assert(bytes_at(buf@, cur19 as int, enc_rec_from(rv, 19)));
            assert(enc_rec_from(rv, 19) == enc_field(rv, 19) + enc_rec_from(rv, 20));
            lemma_bytes_at_concat(buf@, cur19 as int, enc_field(rv, 19), enc_rec_from(
                rv,
                20,
            ));
            lemma_bytes_arr_at_unique(buf@, cur19 as int, flatten_rgb(rv.assets.palette), flatten_rgb(v19));
        }
    }
    let (g20, cur21) = match read_rgb(buf, cur20) {
        Some(x) => x,
        None => {
            proof {
                assert forall|rv: RecordView| !rec_enc_at(buf@, pos as int, rv) by {
                    if rec_enc_at(buf@, pos as int, rv) {
                        assert(bytes_at(buf@, cur20 as int, enc_rec_from(rv, 20)));
                        assert(enc_rec_from(rv, 20) == enc_field(rv, 20) + enc_rec_from(
                            rv,
                            21,
                        ));
                        lemma_bytes_at_concat(
                            buf@,
                            cur20 as int,
                            enc_field(rv, 20),
                            enc_rec_from(rv, 21),
                        );
                        assert(bytes_at(buf@, cur20 as int, enc_rgb(rv.assets.brightest)));
                    }
                }
            }
            return None;
        },
    };
    let ghost v20 = g20;
    proof {
        assert forall|rv: RecordView| #[trigger] rec_enc_at(buf@, pos as int, rv) implies bytes_at(
            buf@,
            cur21 as int,
            enc_rec_from(rv, 21),
        ) by {
            assert(bytes_at(buf@, cur20 as int, enc_rec_from(rv, 20)));
            assert(enc_rec_from(rv, 20) == enc_field(rv, 20) + enc_rec_from(rv, 21));
            lemma_bytes_at_concat(buf@, cur20 as int, enc_field(rv, 20), enc_rec_from(
                rv,
                21,
            ));
            lemma_rgb_at_unique(buf@, cur20 as int, rv.assets.brightest, v20);
        }
    }
    let (g21, cur22) = match read_u32(buf, cur21) {
        Some(x) => x,
        None => {
            proof {
                assert forall|rv: RecordView| !rec_enc_at(buf@, pos as int, rv) by {
                    if rec_enc_at(buf@, pos as int, rv) {
                        assert(bytes_at(buf@, cur21 as int, enc_rec_from(rv, 21)));
                        assert(enc_rec_from(rv, 21) == enc_field(rv, 21) + enc_rec_from(
                            rv,
                            22,
                        ));
                        lemma_bytes_at_concat(
                            buf@,
                            cur21 as int,
                            enc_field(rv, 21),
                            enc_rec_from(rv, 22),
                        );
                        assert(bytes_at(buf@, cur21 as int, enc_u32(rv.record_id)));
                    }
                }
            }
            return None;
        },
    };
    let ghost v21 = g21;
    proof {
        assert forall|rv: RecordView| #[trigger] rec_enc_at(buf@, pos as int, rv) implies bytes_at(
            buf@,
            cur22 as int,
            enc_rec_from(rv, 22),
        ) by {
            assert(bytes_at(buf@, cur21 as int, enc_rec_from(rv, 21)));
            assert(enc_rec_from(rv, 21) == enc_field(rv, 21) + enc_rec_from(rv, 22));
            lemma_bytes_at_concat(buf@, cur21 as int, enc_field(rv, 21), enc_rec_from(
                rv,
                22,
            ));
            lemma_u32_at_unique(buf@, cur21 as int, rv.record_id, v21);
        }
    }
    proof {
        assert(bytes_at(buf@, cur as int, enc_str(v17)));
        lemma_bytes_at_concat(buf@, cur as int, enc_str(v17), enc_str(v18));
        assert(bytes_at(buf@, cur as int, enc_str(v17) + enc_str(v18)));
        lemma_bytes_at_concat(buf@, cur as int, enc_str(v17) + enc_str(v18), enc_bytes_arr(flatten_rgb(v19)));
        assert(bytes_at(buf@, cur as int, enc_str(v17) + enc_str(v18) + enc_bytes_arr(flatten_rgb(v19))));
        lemma_bytes_at_concat(buf@, cur as int, enc_str(v17) + enc_str(v18) + enc_bytes_arr(flatten_rgb(v19)), enc_rgb(v20));
        assert(bytes_at(buf@, cur as int, enc_str(v17) + enc_str(v18) + enc_bytes_arr(flatten_rgb(v19)) + enc_rgb(v20)));
        lemma_bytes_at_concat(buf@, cur as int, enc_str(v17) + enc_str(v18) + enc_bytes_arr(flatten_rgb(v19)) + enc_rgb(v20), enc_u32(v21));
        assert(bytes_at(buf@, cur as int, enc_str(v17) + enc_str(v18) + enc_bytes_arr(flatten_rgb(v19)) + enc_rgb(v20) + enc_u32(v21)));
    }
    Some(((g17, g18, g19, g20, g21), cur22))
}


/// Read one record.  On failure, no record's encoding starts at this
/// position.
#[verifier::rlimit(100)]
#[verifier::spinoff_prover]
pub fn read_record(buf: &Vec<u8>, pos: usize) -> (r: Option<(CompiledCountryRecord, usize)>)
    ensures
        match r {
            Some((rec, end)) => rec_ok(rec@) && end == pos + enc_record(rec@).len() && bytes_at(
                buf@,
                pos as int,
                enc_record(rec@),
            ),
            None => forall|rv: RecordView| !rec_enc_at(buf@, pos as int, rv),
        },
{
    proof {
        assert forall|rv: RecordView| #[trigger] rec_enc_at(buf@, pos as int, rv) implies bytes_at(
            buf@,
            pos as int,
            enc_rec_from(rv, 0),
        ) by {
            assert(enc_record(rv) == enc_rec_from(rv, 0));
        }
    }
    let (a, cur5) = match read_fields_a(buf, pos, pos) {
        Some(x) => x,
        None => {
            return None;
        },
    };
    let (b, cur9) = match read_fields_b(buf, pos, cur5) {
        Some(x) => x,
        None => {
            return None;
        },
    };
    let (c, cur13) = match read_fields_c(buf, pos, cur9) {
        Some(x) => x,
        None => {
            return None;
        },
    };
    let (d, cur17) = match read_fields_d(buf, pos, cur13) {
        Some(x) => x,
        None => {
            return None;
        },
    };
    let (e, end) = match read_fields_e(buf, pos, cur17) {
        Some(x) => x,
        None => {
            return None;
        },
    };
    let ghost ea = enc_str(a.0@) + enc_vec_str(views_of_strings(a.1@)) + enc_str(a.2@) + enc_str(
        a.3@,
    ) + enc_vec_str(flatten_triples(views_of_currencies(a.4@)));
    let ghost eb = enc_vec_str(flatten_pairs(views_of_languages(b.0@))) + enc_vec_str(
        views_of_strings(b.1@),
    ) + enc_u64(b.2) + enc_str(b.3@);
    let ghost ec = enc_u64(c.0) + enc_vec_str(views_of_strings(c.1@)) + enc_str(c.2@) + enc_opt_str(
        view_of_opt_string(c.3),
    );
    let ghost ed = enc_vec_str(views_of_strings(d.0@)) + enc_str(d.1@) + enc_str(d.2@)
        + enc_vec_str(views_of_strings(d.3@));
    let ghost ee = enc_str(e.0@) + enc_str(e.1@) + enc_bytes_arr(flatten_rgb(e.2@)) + enc_rgb(e.3)
        + enc_u32(e.4);
    proof {
        lemma_bytes_at_concat(buf@, pos as int, ea, eb);
        lemma_bytes_at_concat(buf@, pos as int, ea + eb, ec);
        lemma_bytes_at_concat(buf@, pos as int, ea + eb + ec, ed);
        lemma_bytes_at_concat(buf@, pos as int, ea + eb + ec + ed, ee);
        assert(bytes_at(buf@, pos as int, ea + eb + ec + ed + ee));
    }
    let (g0, g1, g2, g3, g4) = a;
    let (g5, g6, g7, g8) = b;
    let (g9, g10, g11, g12) = c;
    let (g13, g14, g15, g16) = d;
    let (g17, g18, g19, g20, g21) = e;
    let rec = CompiledCountryRecord {
        country: Country {
            country_name: Name { common: g0 },
            top_level_domain: g1,
            country_code3: g2,
            country_code2: g3,
            currencies: g4,
            languages: g5,
            neighbours: g6,
            area_m2: g7,
            emoji: g8,
            population: g9,
            continents: g10,
            flag: Flag { url: g11, description: g12 },
            capital: g13,
            car: Car { side: g14 },
            dialing_code: Idd { root: g15, suffixes: g16 },
        },
        assets: RenderedFlagAssets {
            flag_ascii_plain: g17,
            flag_ascii_colored: g18,
            flag_palette: g19,
            brightest_color: g20,
        },
        record_id: g21,
    };
    proof {
        let rv = rec@;
        assert(enc_field(rv, 0) == enc_str(rv.country.name));
        assert(enc_rec_to(rv, 1) == enc_rec_to(rv, 0) + enc_field(rv, 0));
        assert(enc_rec_to(rv, 2) == enc_rec_to(rv, 1) + enc_field(rv, 1));
        assert(enc_rec_to(rv, 3) == enc_rec_to(rv, 2) + enc_field(rv, 2));
        assert(enc_rec_to(rv, 4) == enc_rec_to(rv, 3) + enc_field(rv, 3));
        assert(enc_rec_to(rv, 5) == enc_rec_to(rv, 4) + enc_field(rv, 4));
        assert(enc_rec_to(rv, 6) == enc_rec_to(rv, 5) + enc_field(rv, 5));
        assert(enc_rec_to(rv, 7) == enc_rec_to(rv, 6) + enc_field(rv, 6));
        assert(enc_rec_to(rv, 8) == enc_rec_to(rv, 7) + enc_field(rv, 7));
        assert(enc_rec_to(rv, 9) == enc_rec_to(rv, 8) + enc_field(rv, 8));
        assert(enc_rec_to(rv, 10) == enc_rec_to(rv, 9) + enc_field(rv, 9));
        assert(enc_rec_to(rv, 11) == enc_rec_to(rv, 10) + enc_field(rv, 10));
        assert(enc_rec_to(rv, 12) == enc_rec_to(rv, 11) + enc_field(rv, 11));
        assert(enc_rec_to(rv, 13) == enc_rec_to(rv, 12) + enc_field(rv, 12));
        assert(enc_rec_to(rv, 14) == enc_rec_to(rv, 13) + enc_field(rv, 13));
        assert(enc_rec_to(rv, 15) == enc_rec_to(rv, 14) + enc_field(rv, 14));
        assert(enc_rec_to(rv, 16) == enc_rec_to(rv, 15) + enc_field(rv, 15));
        assert(enc_rec_to(rv, 17) == enc_rec_to(rv, 16) + enc_field(rv, 16));
        assert(enc_rec_to(rv, 18) == enc_rec_to(rv, 17) + enc_field(rv, 17));
        assert(enc_rec_to(rv, 19) == enc_rec_to(rv, 18) + enc_field(rv, 18));
        assert(enc_rec_to(rv, 20) == enc_rec_to(rv, 19) + enc_field(rv, 19));
        assert(enc_rec_to(rv, 21) == enc_rec_to(rv, 20) + enc_field(rv, 20));
        assert(enc_rec_to(rv, 22) == enc_rec_to(rv, 21) + enc_field(rv, 21));
        assert(Seq::<u8>::empty() + enc_field(rv, 0) =~= enc_field(rv, 0));
        // Group fields regrouped to the canonical left-nested chain.
        assert(ea == enc_rec_to(rv, 5));
        lemma_seq_assoc(enc_rec_to(rv, 5), enc_field(rv, 5), enc_field(rv, 6));
        lemma_seq_assoc(enc_rec_to(rv, 5), enc_field(rv, 5) + enc_field(rv, 6), enc_field(rv, 7));
        lemma_seq_assoc(enc_rec_to(rv, 5), (enc_field(rv, 5) + enc_field(rv, 6)) + enc_field(rv, 7), enc_field(rv, 8));
        assert(enc_rec_to(rv, 5) + eb == enc_rec_to(rv, 9));
        assert(ea + eb == enc_rec_to(rv, 9));
        lemma_seq_assoc(enc_rec_to(rv, 9), enc_field(rv, 9), enc_field(rv, 10));
        lemma_seq_assoc(enc_rec_to(rv, 9), enc_field(rv, 9) + enc_field(rv, 10), enc_field(rv, 11));
        lemma_seq_assoc(enc_rec_to(rv, 9), (enc_field(rv, 9) + enc_field(rv, 10)) + enc_field(rv, 11), enc_field(rv, 12));
        assert(enc_rec_to(rv, 9) + ec == enc_rec_to(rv, 13));
        assert((ea + eb) + ec == enc_rec_to(rv, 13));
        lemma_seq_assoc(enc_rec_to(rv, 13), enc_field(rv, 13), enc_field(rv, 14));
        lemma_seq_assoc(enc_rec_to(rv, 13), enc_field(rv, 13) + enc_field(rv, 14), enc_field(rv, 15));
        lemma_seq_assoc(enc_rec_to(rv, 13), (enc_field(rv, 13) + enc_field(rv, 14)) + enc_field(rv, 15), enc_field(rv, 16));
        assert(enc_rec_to(rv, 13) + ed == enc_rec_to(rv, 17));
        assert(((ea + eb) + ec) + ed == enc_rec_to(rv, 17));
        lemma_seq_assoc(enc_rec_to(rv, 17), enc_field(rv, 17), enc_field(rv, 18));
        lemma_seq_assoc(enc_rec_to(rv, 17), enc_field(rv, 17) + enc_field(rv, 18), enc_field(rv, 19));
        lemma_seq_assoc(enc_rec_to(rv, 17), (enc_field(rv, 17) + enc_field(rv, 18)) + enc_field(rv, 19), enc_field(rv, 20));
        lemma_seq_assoc(enc_rec_to(rv, 17), ((enc_field(rv, 17) + enc_field(rv, 18)) + enc_field(rv, 19)) + enc_field(rv, 20), enc_field(rv, 21));
        assert(enc_rec_to(rv, 17) + ee == enc_rec_to(rv, 22));
        assert((((ea + eb) + ec) + ed) + ee == enc_rec_to(rv, 22));
        lemma_rec_split(rv, 22);
        assert(enc_rec_to(rv, 22) + enc_rec_from(rv, 22) =~= enc_rec_to(rv, 22));
        assert(bytes_at(buf@, pos as int, enc_record(rv)));
        assert(rec_ok(rv));
    }
    Some((rec, end))
}

} // verus!
