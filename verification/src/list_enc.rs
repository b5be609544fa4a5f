//! List-level encodings of the archive format: a counted list of strings and
//! a counted raw byte array, together with the flattening that turns pairs
//! and triples of strings into plain string lists and colour palettes into
//! packed channel bytes.

use vstd::prelude::*;

use crate::bytes_enc::{
    bytes_at, copy_range, enc_str, enc_u32, lemma_str_at_unique, lemma_u32_at_unique, push_str,
    push_u32, read_str, read_u32, str_enc_at, str_ok,
};
use crate::color::Rgb;

verus! {

/// Concatenation of the encodings of a string sequence.
pub open spec fn cat_str(items: Seq<Seq<char>>) -> Seq<u8>
    decreases items.len(),
{
    if items.len() == 0 {
        Seq::empty()
    } else {
        enc_str(items.first()) + cat_str(items.drop_first())
    }
}

/// Counted list of length-prefixed strings.
pub open spec fn enc_vec_str(items: Seq<Seq<char>>) -> Seq<u8> {
    enc_u32(items.len() as u32) + cat_str(items)
}

pub open spec fn vec_str_ok(items: Seq<Seq<char>>) -> bool {
    items.len() < 0x1_0000_0000 && forall|i: int| 0 <= i < items.len() ==> str_ok(
        #[trigger] items[i],
    )
}

/// A string list's encoding starts at `pos` in `b`.
pub open spec fn vec_str_enc_at(b: Seq<u8>, pos: int, items: Seq<Seq<char>>) -> bool {
    vec_str_ok(items) && bytes_at(b, pos, enc_vec_str(items))
}

/// An occurrence of a concatenation splits into occurrences of its parts.
pub proof fn lemma_bytes_at_concat(b: Seq<u8>, p: int, e1: Seq<u8>, e2: Seq<u8>)
    requires
        0 <= p,
    ensures
        bytes_at(b, p, e1 + e2) <==> (bytes_at(b, p, e1) && bytes_at(b, p + e1.len(), e2)),
{
    if bytes_at(b, p, e1 + e2) {
        assert(b.subrange(p, p + e1.len()) =~= e1) by {
            assert forall|i: int| 0 <= i < e1.len() implies b[p + i] == e1[i] by {
                assert(b.subrange(p, p + (e1 + e2).len())[i] == (e1 + e2)[i]);
            }
        }
        assert(b.subrange(p + e1.len(), p + e1.len() + e2.len()) =~= e2) by {
            assert forall|i: int| 0 <= i < e2.len() implies b[p + e1.len() + i] == e2[i] by {
                assert(b.subrange(p, p + (e1 + e2).len())[e1.len() + i] == (e1 + e2)[e1.len()
                    + i]);
            }
        }
    }
    if bytes_at(b, p, e1) && bytes_at(b, p + e1.len(), e2) {
        assert(b.subrange(p, p + (e1 + e2).len()) =~= e1 + e2) by {
            assert forall|i: int| 0 <= i < (e1 + e2).len() implies b[p + i] == (e1 + e2)[i] by {
                if i < e1.len() {
                    assert(b.subrange(p, p + e1.len())[i] == e1[i]);
                } else {
                    assert(b.subrange(p + e1.len(), p + e1.len() + e2.len())[i - e1.len()]
                        == e2[i - e1.len()]);
                }
            }
        }
    }
}

/// Appending an item appends its encoding to the concatenation.
pub proof fn lemma_cat_str_push(items: Seq<Seq<char>>, x: Seq<char>)
    ensures
        cat_str(items.push(x)) == cat_str(items) + enc_str(x),
    decreases items.len(),
{
    if items.len() == 0 {
        assert(items.push(x).drop_first() =~= Seq::<Seq<char>>::empty());
        assert(items.push(x).first() == x);
        assert(cat_str(items.push(x)) == enc_str(x) + cat_str(Seq::<Seq<char>>::empty()));
        assert(cat_str(items.push(x)) =~= cat_str(items) + enc_str(x));
    } else {
        assert(items.push(x).drop_first() =~= items.drop_first().push(x));
        lemma_cat_str_push(items.drop_first(), x);
        assert(cat_str(items.push(x)) =~= cat_str(items) + enc_str(x));
    }
}

/// Two equally long string sequences whose concatenated encodings start at
/// the same position are equal.
pub proof fn lemma_cat_str_at_unique(b: Seq<u8>, p: int, v1: Seq<Seq<char>>, v2: Seq<Seq<char>>)
    requires
        0 <= p,
        v1.len() == v2.len(),
        forall|i: int| 0 <= i < v1.len() ==> str_ok(#[trigger] v1[i]),
        forall|i: int| 0 <= i < v2.len() ==> str_ok(#[trigger] v2[i]),
        bytes_at(b, p, cat_str(v1)),
        bytes_at(b, p, cat_str(v2)),
    ensures
        v1 == v2,
    decreases v1.len(),
{
    if v1.len() == 0 {
        assert(v1 =~= v2);
    } else {
        lemma_bytes_at_concat(b, p, enc_str(v1.first()), cat_str(v1.drop_first()));
        lemma_bytes_at_concat(b, p, enc_str(v2.first()), cat_str(v2.drop_first()));
        lemma_str_at_unique(b, p, v1.first(), v2.first());
        lemma_cat_str_at_unique(
            b,
            p + enc_str(v1.first()).len(),
            v1.drop_first(),
            v2.drop_first(),
        );
        assert(v1 =~= v2) by {
            assert(v1 =~= seq![v1.first()] + v1.drop_first());
            assert(v2 =~= seq![v2.first()] + v2.drop_first());
        }
    }
}

/// Two string lists encoded at the same position are the same list.
pub proof fn lemma_vec_str_at_unique(b: Seq<u8>, p: int, v1: Seq<Seq<char>>, v2: Seq<Seq<char>>)
    requires
        vec_str_enc_at(b, p, v1),
        vec_str_enc_at(b, p, v2),
    ensures
        v1 == v2,
{
    lemma_bytes_at_concat(b, p, enc_u32(v1.len() as u32), cat_str(v1));
    lemma_bytes_at_concat(b, p, enc_u32(v2.len() as u32), cat_str(v2));
    lemma_u32_at_unique(b, p, v1.len() as u32, v2.len() as u32);
    lemma_cat_str_at_unique(b, p + 4, v1, v2);
}


/// At position `cur` the remaining items of a candidate list start with the
/// encoding of item `k`.
proof fn lemma_cat_str_step(b: Seq<u8>, cur: int, items: Seq<Seq<char>>, k: int)
    requires
        0 <= cur,
        0 <= k < items.len(),
        forall|i: int| 0 <= i < items.len() ==> str_ok(#[trigger] items[i]),
        bytes_at(b, cur, cat_str(items.skip(k))),
    ensures
        str_enc_at(b, cur, items[k]),
        bytes_at(b, cur + enc_str(items[k]).len(), cat_str(items.skip(k + 1))),
{
    let rest = items.skip(k);
    assert(rest.len() > 0);
    assert(cat_str(rest) == enc_str(rest.first()) + cat_str(rest.drop_first()));
    lemma_bytes_at_concat(b, cur, enc_str(rest.first()), cat_str(rest.drop_first()));
    assert(rest.first() == items[k]);
    assert(rest.drop_first() =~= items.skip(k + 1));
}

/// Append a counted list of strings.
pub fn push_vec_str(out: &mut Vec<u8>, v: &Vec<String>)
    requires
        vec_str_ok(crate::country::views_of_strings(v@)),
    ensures
        final(out)@ == old(out)@ + enc_vec_str(crate::country::views_of_strings(v@)),
{
    let ghost items = crate::country::views_of_strings(v@);
    push_u32(out, v.len() as u32);
    let ghost mid = out@;
    let mut i: usize = 0;
    proof {
        assert(items.take(0) =~= Seq::<Seq<char>>::empty());
        assert(out@ =~= mid + cat_str(items.take(0)));
    }
    while i < v.len()
        invariant
            0 <= i <= v@.len(),
            items == crate::country::views_of_strings(v@),
            vec_str_ok(items),
            items.len() == v@.len(),
            out@ == mid + cat_str(items.take(i as int)),
        decreases v@.len() - i,
    {
        proof {
            assert(items[i as int] == v@[i as int]@);
        }
        push_str(out, v[i].as_str());
        i = i + 1;
        proof {
            assert(items.take(i - 1).push(items[i - 1]) =~= items.take(i as int));
            lemma_cat_str_push(items.take(i - 1), items[i - 1]);
            assert(out@ =~= mid + cat_str(items.take(i as int)));
        }
    }
    proof {
        assert(items.take(items.len() as int) =~= items);
        assert(out@ =~= old(out)@ + enc_vec_str(items));
    }
}

/// Read a counted list of strings.  On failure, no string list's encoding
/// starts at this position.
pub fn read_vec_str(buf: &Vec<u8>, pos: usize) -> (r: Option<(Vec<String>, usize)>)
    ensures
        match r {
            Some((v, end)) => {
                let items = crate::country::views_of_strings(v@);
                vec_str_ok(items) && end == pos + enc_vec_str(items).len() && bytes_at(
                    buf@,
                    pos as int,
                    enc_vec_str(items),
                )
            },
            None => forall|items: Seq<Seq<char>>| !vec_str_enc_at(buf@, pos as int, items),
        },
{
    let (n, mut cur) = match read_u32(buf, pos) {
        Some(x) => x,
        None => {
            proof {
                assert forall|items: Seq<Seq<char>>|
                    !vec_str_enc_at(buf@, pos as int, items) by {
                    if vec_str_enc_at(buf@, pos as int, items) {
                        assert(enc_vec_str(items).len() >= 4);
                    }
                }
            }
            return None;
        },
    };
    let mut got: Vec<String> = Vec::new();
    let mut k: u32 = 0;
    proof {
        assert forall|items: Seq<Seq<char>>|
            #[trigger] vec_str_enc_at(buf@, pos as int, items) implies items.len() == n
            && bytes_at(buf@, pos + 4, cat_str(items.skip(0))) by {
            lemma_bytes_at_concat(buf@, pos as int, enc_u32(items.len() as u32), cat_str(items));
            lemma_u32_at_unique(buf@, pos as int, n, items.len() as u32);
            assert(items.skip(0) =~= items);
        }
        assert(crate::country::views_of_strings(got@) =~= Seq::<Seq<char>>::empty());
        assert(cat_str(crate::country::views_of_strings(got@)) =~= Seq::<u8>::empty());
        assert(buf@.subrange(pos + 4, pos + 4) =~= Seq::<u8>::empty());
    }
    while k < n
        invariant
            0 <= k <= n,
            got@.len() == k,
            pos + 4 <= cur <= buf@.len(),
            vec_str_ok(crate::country::views_of_strings(got@)),
            bytes_at(buf@, pos + 4, cat_str(crate::country::views_of_strings(got@))),
            cur == pos + 4 + cat_str(crate::country::views_of_strings(got@)).len(),
            forall|items: Seq<Seq<char>>|
                #[trigger] vec_str_enc_at(buf@, pos as int, items) ==> items.len() == n
                    && bytes_at(buf@, cur as int, cat_str(items.skip(k as int))),
        decreases n - k,
    {
        let ghost got_items = crate::country::views_of_strings(got@);
        match read_str(buf, cur) {
            Some((s, end)) => {
                got.push(s);
                proof {
                    assert(crate::country::views_of_strings(got@) =~= got_items.push(s@));
                    lemma_cat_str_push(got_items, s@);
                    lemma_bytes_at_concat(buf@, pos + 4, cat_str(got_items), enc_str(s@));
                    assert forall|items: Seq<Seq<char>>|
                        #[trigger] vec_str_enc_at(buf@, pos as int, items) implies items.len() == n
                        && bytes_at(buf@, end as int, cat_str(items.skip(k + 1))) by {
                        assert(items.len() == n && bytes_at(
                            buf@,
                            cur as int,
                            cat_str(items.skip(k as int)),
                        ));
                        lemma_cat_str_step(buf@, cur as int, items, k as int);
                        lemma_str_at_unique(buf@, cur as int, items[k as int], s@);
                    }
                }
                cur = end;
                k = k + 1;
            },
            None => {
                proof {
                    assert forall|items: Seq<Seq<char>>|
                        !vec_str_enc_at(buf@, pos as int, items) by {
                        if vec_str_enc_at(buf@, pos as int, items) {
                            assert(items.len() == n && bytes_at(
                                buf@,
                                cur as int,
                                cat_str(items.skip(k as int)),
                            ));
                            lemma_cat_str_step(buf@, cur as int, items, k as int);
                        }
                    }
                }
                return None;
            },
        }
    }
    proof {
        let items = crate::country::views_of_strings(got@);
        assert(bytes_at(buf@, pos as int, enc_vec_str(items))) by {
            assert(got@.len() == n);
            lemma_bytes_at_concat(buf@, pos as int, enc_u32(n), cat_str(items));
        }
    }
    Some((got, cur))
}

/// Counted raw byte array.
pub open spec fn enc_bytes_arr(raw: Seq<u8>) -> Seq<u8> {
    enc_u32(raw.len() as u32) + raw
}

pub open spec fn bytes_arr_ok(raw: Seq<u8>) -> bool {
    raw.len() < 0x1_0000_0000
}

pub open spec fn bytes_arr_enc_at(b: Seq<u8>, pos: int, raw: Seq<u8>) -> bool {
    bytes_arr_ok(raw) && bytes_at(b, pos, enc_bytes_arr(raw))
}

/// Two byte arrays encoded at the same position are the same array.
pub proof fn lemma_bytes_arr_at_unique(b: Seq<u8>, p: int, r1: Seq<u8>, r2: Seq<u8>)
    requires
        bytes_arr_enc_at(b, p, r1),
        bytes_arr_enc_at(b, p, r2),
    ensures
        r1 == r2,
{
    lemma_bytes_at_concat(b, p, enc_u32(r1.len() as u32), r1);
    lemma_bytes_at_concat(b, p, enc_u32(r2.len() as u32), r2);
    lemma_u32_at_unique(b, p, r1.len() as u32, r2.len() as u32);
    assert(r1 =~= r2) by {
        assert(r1 == b.subrange(p + 4, p + 4 + r1.len()));
        assert(r2 == b.subrange(p + 4, p + 4 + r2.len()));
    }
}

/// Append a counted raw byte array.
pub fn push_bytes_arr(out: &mut Vec<u8>, raw: &Vec<u8>)
    requires
        bytes_arr_ok(raw@),
    ensures
        final(out)@ == old(out)@ + enc_bytes_arr(raw@),
{
    push_u32(out, raw.len() as u32);
    let ghost mid = out@;
    let mut i: usize = 0;
    while i < raw.len()
        invariant
            0 <= i <= raw@.len(),
            out@ == mid + raw@.take(i as int),
        decreases raw@.len() - i,
    {
        out.push(raw[i]);
        i = i + 1;
        proof {
            assert(out@ =~= mid + raw@.take(i as int));
        }
    }
    proof {
        assert(raw@.take(raw@.len() as int) =~= raw@);
        assert(out@ =~= old(out)@ + enc_bytes_arr(raw@));
    }
}

/// Read a counted raw byte array.  On failure, no byte array's encoding
/// starts at this position.
pub fn read_bytes_arr(buf: &Vec<u8>, pos: usize) -> (r: Option<(Vec<u8>, usize)>)
    ensures
        match r {
            Some((v, end)) => bytes_arr_ok(v@) && end == pos + enc_bytes_arr(v@).len() && bytes_at(
                buf@,
                pos as int,
                enc_bytes_arr(v@),
            ),
            None => forall|raw: Seq<u8>| !bytes_arr_enc_at(buf@, pos as int, raw),
        },
{
    let (n, mid) = match read_u32(buf, pos) {
        Some(x) => x,
        None => {
            proof {
                assert forall|raw: Seq<u8>| !bytes_arr_enc_at(buf@, pos as int, raw) by {
                    if bytes_arr_enc_at(buf@, pos as int, raw) {
                        assert(enc_bytes_arr(raw).len() >= 4);
                    }
                }
            }
            return None;
        },
    };
    if (buf.len() - mid) < (n as usize) {
        proof {
            assert forall|raw: Seq<u8>| !bytes_arr_enc_at(buf@, pos as int, raw) by {
                if bytes_arr_enc_at(buf@, pos as int, raw) {
                    lemma_bytes_at_concat(buf@, pos as int, enc_u32(raw.len() as u32), raw);
                    lemma_u32_at_unique(buf@, pos as int, n, raw.len() as u32);
                }
            }
        }
        return None;
    }
    let v = copy_range(buf, mid, n as usize);
    proof {
        assert(buf@.subrange(pos as int, pos + enc_bytes_arr(v@).len()) =~= enc_bytes_arr(v@)) by {
            assert forall|i: int|
                0 <= i < enc_bytes_arr(v@).len() implies buf@[pos + i] == enc_bytes_arr(v@)[i] by {
                if i < 4 {
                    assert(buf@[pos + i] == buf@.subrange(pos as int, pos + 4)[i]);
                    assert(enc_bytes_arr(v@)[i] == enc_u32(n)[i]);
                } else {
                    assert(buf@[pos + i] == buf@.subrange(mid as int, mid + n)[i - 4]);
                }
            }
        }
    }
    Some((v, mid + (n as usize)))
}

/// Pairs flattened into a plain string sequence, element by element.
pub open spec fn flatten_pairs(v: Seq<(Seq<char>, Seq<char>)>) -> Seq<Seq<char>>
    decreases v.len(),
{
    if v.len() == 0 {
        Seq::empty()
    } else {
        seq![v.first().0, v.first().1] + flatten_pairs(v.drop_first())
    }
}

/// Triples flattened into a plain string sequence, element by element.
pub open spec fn flatten_triples(v: Seq<(Seq<char>, Seq<char>, Seq<char>)>) -> Seq<Seq<char>>
    decreases v.len(),
{
    if v.len() == 0 {
        Seq::empty()
    } else {
        seq![v.first().0, v.first().1, v.first().2] + flatten_triples(v.drop_first())
    }
}

/// A palette packed as channel bytes, three per colour.
pub open spec fn flatten_rgb(v: Seq<Rgb>) -> Seq<u8>
    decreases v.len(),
{
    if v.len() == 0 {
        Seq::empty()
    } else {
        seq![v.first().r, v.first().g, v.first().b] + flatten_rgb(v.drop_first())
    }
}

pub proof fn lemma_flatten_pairs_len(v: Seq<(Seq<char>, Seq<char>)>)
    ensures
        flatten_pairs(v).len() == 2 * v.len(),
    decreases v.len(),
{
    if v.len() > 0 {
        lemma_flatten_pairs_len(v.drop_first());
    }
}

pub proof fn lemma_flatten_triples_len(v: Seq<(Seq<char>, Seq<char>, Seq<char>)>)
    ensures
        flatten_triples(v).len() == 3 * v.len(),
    decreases v.len(),
{
    if v.len() > 0 {
        lemma_flatten_triples_len(v.drop_first());
    }
}

pub proof fn lemma_flatten_rgb_len(v: Seq<Rgb>)
    ensures
        flatten_rgb(v).len() == 3 * v.len(),
    decreases v.len(),
{
    if v.len() > 0 {
        lemma_flatten_rgb_len(v.drop_first());
    }
}

/// Flattening pairs is injective.
pub proof fn lemma_flatten_pairs_injective(
    v1: Seq<(Seq<char>, Seq<char>)>,
    v2: Seq<(Seq<char>, Seq<char>)>,
)
    requires
        flatten_pairs(v1) == flatten_pairs(v2),
    ensures
        v1 == v2,
    decreases v1.len(),
{
    lemma_flatten_pairs_len(v1);
    lemma_flatten_pairs_len(v2);
    if v1.len() == 0 {
        assert(v1 =~= v2);
    } else {
        assert(flatten_pairs(v1)[0] == v1.first().0 && flatten_pairs(v1)[1] == v1.first().1);
        assert(flatten_pairs(v2)[0] == v2.first().0 && flatten_pairs(v2)[1] == v2.first().1);
        assert(flatten_pairs(v1.drop_first()) =~= flatten_pairs(v2.drop_first())) by {
            assert forall|i: int|
                0 <= i < flatten_pairs(v1.drop_first()).len() implies flatten_pairs(
                v1.drop_first(),
            )[i] == flatten_pairs(v2.drop_first())[i] by {
                assert(flatten_pairs(v1)[2 + i] == flatten_pairs(v1.drop_first())[i]);
                assert(flatten_pairs(v2)[2 + i] == flatten_pairs(v2.drop_first())[i]);
            }
        }
        lemma_flatten_pairs_injective(v1.drop_first(), v2.drop_first());
        assert forall|i: int| 0 <= i < v1.len() implies v1[i] == v2[i] by {
            if i == 0 {
                assert(v1.first() == v2.first());
            } else {
                assert(v1.drop_first()[i - 1] == v1[i]);
                assert(v2.drop_first()[i - 1] == v2[i]);
            }
        }
        assert(v1 =~= v2);
    }
}

/// Flattening triples is injective.
pub proof fn lemma_flatten_triples_injective(
    v1: Seq<(Seq<char>, Seq<char>, Seq<char>)>,
    v2: Seq<(Seq<char>, Seq<char>, Seq<char>)>,
)
    requires
        flatten_triples(v1) == flatten_triples(v2),
    ensures
        v1 == v2,
    decreases v1.len(),
{
    lemma_flatten_triples_len(v1);
    lemma_flatten_triples_len(v2);
    if v1.len() == 0 {
        assert(v1 =~= v2);
    } else {
        assert(flatten_triples(v1)[0] == v1.first().0 && flatten_triples(v1)[1] == v1.first().1
            && flatten_triples(v1)[2] == v1.first().2);
        assert(flatten_triples(v2)[0] == v2.first().0 && flatten_triples(v2)[1] == v2.first().1
            && flatten_triples(v2)[2] == v2.first().2);
        assert(flatten_triples(v1.drop_first()) =~= flatten_triples(v2.drop_first())) by {
            assert forall|i: int|
                0 <= i < flatten_triples(v1.drop_first()).len() implies flatten_triples(
                v1.drop_first(),
            )[i] == flatten_triples(v2.drop_first())[i] by {
                assert(flatten_triples(v1)[3 + i] == flatten_triples(v1.drop_first())[i]);
                assert(flatten_triples(v2)[3 + i] == flatten_triples(v2.drop_first())[i]);
            }
        }
        lemma_flatten_triples_injective(v1.drop_first(), v2.drop_first());
        assert forall|i: int| 0 <= i < v1.len() implies v1[i] == v2[i] by {
            if i == 0 {
                assert(v1.first() == v2.first());
            } else {
                assert(v1.drop_first()[i - 1] == v1[i]);
                assert(v2.drop_first()[i - 1] == v2[i]);
            }
        }
        assert(v1 =~= v2);
    }
}

/// Packing a palette is injective.
pub proof fn lemma_flatten_rgb_injective(v1: Seq<Rgb>, v2: Seq<Rgb>)
    requires
        flatten_rgb(v1) == flatten_rgb(v2),
    ensures
        v1 == v2,
    decreases v1.len(),
{
    lemma_flatten_rgb_len(v1);
    lemma_flatten_rgb_len(v2);
    if v1.len() == 0 {
        assert(v1 =~= v2);
    } else {
        assert(flatten_rgb(v1)[0] == v1.first().r && flatten_rgb(v1)[1] == v1.first().g
            && flatten_rgb(v1)[2] == v1.first().b);
        assert(flatten_rgb(v2)[0] == v2.first().r && flatten_rgb(v2)[1] == v2.first().g
            && flatten_rgb(v2)[2] == v2.first().b);
        assert(flatten_rgb(v1.drop_first()) =~= flatten_rgb(v2.drop_first())) by {
            assert forall|i: int|
                0 <= i < flatten_rgb(v1.drop_first()).len() implies flatten_rgb(v1.drop_first())[i]
                == flatten_rgb(v2.drop_first())[i] by {
                assert(flatten_rgb(v1)[3 + i] == flatten_rgb(v1.drop_first())[i]);
                assert(flatten_rgb(v2)[3 + i] == flatten_rgb(v2.drop_first())[i]);
            }
        }
        lemma_flatten_rgb_injective(v1.drop_first(), v2.drop_first());
        assert forall|i: int| 0 <= i < v1.len() implies v1[i] == v2[i] by {
            if i == 0 {
                assert(v1.first() == v2.first());
            } else {
                assert(v1.drop_first()[i - 1] == v1[i]);
                assert(v2.drop_first()[i - 1] == v2[i]);
            }
        }
        assert(v1 =~= v2);
    }
}

} // verus!
