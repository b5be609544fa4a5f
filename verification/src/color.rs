//! Colours of a flag palette: perceptual luminance, the colourfulness metric
//! used to pick a flag's most distinctive colour, and the canonical ascending
//! sort of a palette by luminance.

use vstd::prelude::*;

verus! {

/// One colour extracted from a flag image.
#[derive(Clone, Copy, PartialEq, Eq, Structural, Debug)]
pub struct Rgb {
    pub r: u8,
    pub g: u8,
    pub b: u8,
}

/// Largest of the three channels.
pub open spec fn max_channel(c: Rgb) -> int {
    let r = c.r as int;
    let g = c.g as int;
    let b = c.b as int;
    if r >= g && r >= b {
        r
    } else if g >= b {
        g
    } else {
        b
    }
}

/// Smallest of the three channels.
pub open spec fn min_channel(c: Rgb) -> int {
    let r = c.r as int;
    let g = c.g as int;
    let b = c.b as int;
    if r <= g && r <= b {
        r
    } else if g <= b {
        g
    } else {
        b
    }
}

/// Perceived luminance with BT.709 weights, scaled by 10000 so that it stays
/// in integers: `0.2126 R + 0.7152 G + 0.0722 B`.
pub open spec fn luminance(c: Rgb) -> int {
    2126 * (c.r as int) + 7152 * (c.g as int) + 722 * (c.b as int)
}

/// The saturation-like metric `(max + min) * (max - min) / max` over a
/// colour's channels; pure black, where the formula would divide by zero, is
/// defined to have colourfulness zero.
pub open spec fn colorfulness(c: Rgb) -> int {
    let mx = max_channel(c);
    let mn = min_channel(c);
    if mx == 0 {
        0
    } else {
        ((mx + mn) * (mx - mn)) / mx
    }
}

/// BT.709 luminance of a colour, scaled by 10000.
pub fn luminance_value(c: &Rgb) -> (l: u32)
    ensures
        l as int == luminance(*c),
{
    2126 * (c.r as u32) + 7152 * (c.g as u32) + 722 * (c.b as u32)
}

/// Colourfulness of a colour; zero for pure black rather than a division
/// error.
pub fn colorfulness_value(c: &Rgb) -> (v: u32)
    ensures
        v as int == colorfulness(*c),
{
    let mut mx: u8 = c.r;
    if c.g > mx {
        mx = c.g;
    }
    if c.b > mx {
        mx = c.b;
    }
    let mut mn: u8 = c.r;
    if c.g < mn {
        mn = c.g;
    }
    if c.b < mn {
        mn = c.b;
    }
    assert(mn <= mx);
    if mx == 0 {
        0
    } else {
        proof {
            assert((mx as int + mn as int) * (mx as int - mn as int) <= 510 * 255)
                by (nonlinear_arith)
                requires
                    mn as int <= mx as int <= 255,
                    0 <= mn as int,
            ;
        }
        ((mx as u32 + mn as u32) * (mx as u32 - mn as u32)) / (mx as u32)
    }
}

/// Any gray colour, black included, has colourfulness zero: the channels are
/// equal, so `max - min` vanishes, and pure black takes the guarded zero
/// branch instead of dividing by zero.
pub proof fn lemma_colorfulness_gray(k: u8)
    ensures
        colorfulness(Rgb { r: k, g: k, b: k }) == 0,
{
    let c = Rgb { r: k, g: k, b: k };
    assert(max_channel(c) == k as int);
    assert(min_channel(c) == k as int);
}

/// Ascending-by-luminance order used for palettes.
pub open spec fn lum_le(a: Rgb, b: Rgb) -> bool {
    luminance(a) <= luminance(b)
}

/// Insert `x` into `s` from the right, stopping at the first element whose
/// luminance does not exceed `x`'s: the insertion step of a stable insertion
/// sort.
pub open spec fn insert_by_lum(s: Seq<Rgb>, x: Rgb) -> Seq<Rgb>
    decreases s.len(),
{
    if s.len() == 0 {
        seq![x]
    } else if luminance(x) < luminance(s.last()) {
        insert_by_lum(s.drop_last(), x).push(s.last())
    } else {
        s.push(x)
    }
}

/// Stable insertion sort of a palette, ascending by luminance; ties keep
/// their original order, so the result is a function of the input sequence.
pub open spec fn sort_by_lum(s: Seq<Rgb>) -> Seq<Rgb>
    decreases s.len(),
{
    if s.len() == 0 {
        Seq::empty()
    } else {
        insert_by_lum(sort_by_lum(s.drop_last()), s.last())
    }
}

proof fn lemma_insert_by_lum_ensures(s: Seq<Rgb>, x: Rgb)
    requires
        vstd::relations::sorted_by(s, |a: Rgb, b: Rgb| lum_le(a, b)),
    ensures
        vstd::relations::sorted_by(insert_by_lum(s, x), |a: Rgb, b: Rgb| lum_le(a, b)),
        insert_by_lum(s, x).to_multiset() == s.push(x).to_multiset(),
        insert_by_lum(s, x).len() == s.len() + 1,
    decreases s.len(),
{
    broadcast use vstd::seq_lib::group_to_multiset_ensures;

    let leq = |a: Rgb, b: Rgb| lum_le(a, b);
    if s.len() == 0 {
        assert(insert_by_lum(s, x) =~= seq![x]);
        assert(seq![x].to_multiset() =~= s.push(x).to_multiset());
    } else if luminance(x) < luminance(s.last()) {
        assert(vstd::relations::sorted_by(s.drop_last(), leq)) by {
            assert forall|i: int, j: int| 0 <= i < j < s.drop_last().len() implies #[trigger] leq(
                s.drop_last()[i],
                s.drop_last()[j],
            ) by {
                assert(leq(s[i], s[j]));
            }
        }
        lemma_insert_by_lum_ensures(s.drop_last(), x);
        let inner = insert_by_lum(s.drop_last(), x);
        let res = inner.push(s.last());
        assert forall|i: int, j: int| 0 <= i < j < res.len() implies #[trigger] leq(
            res[i],
            res[j],
        ) by {
            if j < res.len() - 1 {
                assert(leq(inner[i], inner[j]));
            } else {
                // res[j] is s.last(); every element of inner is either from
                // s.drop_last() (below s.last() by sortedness of s) or x
                // (below by the branch condition).
                assert(inner.to_multiset().contains(res[i])) by {
                    assert(inner[i] == res[i]);
                }
                assert(s.drop_last().push(x).to_multiset().contains(res[i]));
                if exists|k: int| 0 <= k < s.drop_last().len() && s.drop_last()[k] == res[i] {
                    let k = choose|k: int|
                        0 <= k < s.drop_last().len() && s.drop_last()[k] == res[i];
                    assert(leq(s[k], s[s.len() - 1]));
                } else {
                    assert(res[i] == x);
                }
            }
        }
        assert(res.to_multiset() =~= s.push(x).to_multiset()) by {
            assert(inner.to_multiset() =~= s.drop_last().push(x).to_multiset());
            assert(res.to_multiset() =~= inner.to_multiset().insert(s.last()));
            assert(s.push(x).to_multiset() =~= s.drop_last().push(s.last()).push(x).to_multiset()) by {
                assert(s.drop_last().push(s.last()) =~= s);
            }
            assert(s.drop_last().push(s.last()).push(x).to_multiset() =~= s.drop_last().push(
                x,
            ).push(s.last()).to_multiset()) by {
                assert(s.drop_last().push(s.last()).push(x).to_multiset() =~= s.drop_last().to_multiset().insert(s.last()).insert(x));
                assert(s.drop_last().push(x).push(s.last()).to_multiset() =~= s.drop_last().to_multiset().insert(x).insert(s.last()));
                assert(s.drop_last().to_multiset().insert(s.last()).insert(x) =~= s.drop_last().to_multiset().insert(x).insert(s.last()));
            }
        }
    } else {
        let res = s.push(x);
        assert forall|i: int, j: int| 0 <= i < j < res.len() implies #[trigger] leq(
            res[i],
            res[j],
        ) by {
            if j < res.len() - 1 {
                assert(leq(s[i], s[j]));
            } else {
                if i < s.len() - 1 {
                    assert(leq(s[i], s[s.len() - 1]));
                }
            }
        }
    }
}

/// The canonical palette sort is sorted and preserves the multiset of
/// colours.
pub proof fn lemma_sort_by_lum_ensures(s: Seq<Rgb>)
    ensures
        vstd::relations::sorted_by(sort_by_lum(s), |a: Rgb, b: Rgb| lum_le(a, b)),
        sort_by_lum(s).to_multiset() == s.to_multiset(),
        sort_by_lum(s).len() == s.len(),
    decreases s.len(),
{
    broadcast use vstd::seq_lib::group_to_multiset_ensures;

    if s.len() == 0 {
    } else {
        lemma_sort_by_lum_ensures(s.drop_last());
        lemma_insert_by_lum_ensures(sort_by_lum(s.drop_last()), s.last());
        assert(s.drop_last().push(s.last()) =~= s);
        assert(sort_by_lum(s.drop_last()).push(s.last()).to_multiset() =~= sort_by_lum(
            s.drop_last(),
        ).to_multiset().insert(s.last()));
        assert(s.to_multiset() =~= s.drop_last().to_multiset().insert(s.last()));
    }
}

/// Helper: when every element from position `j` on has luminance strictly
/// above `x`'s and the element before `j` (if any) does not, inserting `x`
/// lands exactly at position `j`.
proof fn lemma_insert_by_lum_at(s: Seq<Rgb>, x: Rgb, j: int)
    requires
        0 <= j <= s.len(),
        forall|m: int| j <= m < s.len() ==> luminance(x) < luminance(#[trigger] s[m]),
        j > 0 ==> !(luminance(x) < luminance(s[j - 1])),
    ensures
        insert_by_lum(s, x) == s.take(j).push(x) + s.skip(j),
    decreases s.len(),
{
    if j == s.len() {
        if s.len() == 0 {
            assert(insert_by_lum(s, x) =~= s.take(j).push(x) + s.skip(j));
        } else {
            assert(insert_by_lum(s, x) =~= s.push(x));
            assert(s.take(j) =~= s);
            assert(s.skip(j) =~= Seq::<Rgb>::empty());
            assert(s.push(x) =~= s.take(j).push(x) + s.skip(j));
        }
    } else {
        assert(luminance(x) < luminance(s.last()));
        lemma_insert_by_lum_at(s.drop_last(), x, j);
        assert(s.drop_last().take(j) =~= s.take(j));
        assert(insert_by_lum(s, x) =~= (s.drop_last().take(j).push(x) + s.drop_last().skip(
            j,
        )).push(s.last()));
        assert((s.take(j).push(x) + s.drop_last().skip(j)).push(s.last()) =~= s.take(j).push(x)
            + s.skip(j));
    }
}

/// Position from the right at which a stable luminance insert places `x`.
fn lum_insert_pos(out: &Vec<Rgb>, x: &Rgb) -> (j: usize)
    ensures
        0 <= j <= out@.len(),
        forall|m: int| j <= m < out@.len() ==> luminance(*x) < luminance(#[trigger] out@[m]),
        j > 0 ==> !(luminance(*x) < luminance(out@[j - 1])),
{
    let lx = luminance_value(x);
    let mut j: usize = out.len();
    while j > 0
        invariant
            0 <= j <= out@.len(),
            lx as int == luminance(*x),
            forall|m: int| j <= m < out@.len() ==> luminance(*x) < luminance(#[trigger] out@[m]),
        decreases j,
    {
        let l = luminance_value(&out[j - 1]);
        if lx < l {
            j = j - 1;
        } else {
            return j;
        }
    }
    j
}

/// Sort a palette ascending by perceived luminance.  The result is the
/// canonical stable sort of the input, so two runs over the same palette
/// give the same order even among colours of equal luminance.
pub fn sort_palette(palette: Vec<Rgb>) -> (sorted: Vec<Rgb>)
    ensures
        sorted@ == sort_by_lum(palette@),
        vstd::relations::sorted_by(sorted@, |a: Rgb, b: Rgb| lum_le(a, b)),
        sorted@.to_multiset() == palette@.to_multiset(),
        sorted@.len() == palette@.len(),
{
    proof {
        lemma_sort_by_lum_ensures(palette@);
    }
    let mut out: Vec<Rgb> = Vec::new();
    let mut i: usize = 0;
    while i < palette.len()
        invariant
            0 <= i <= palette@.len(),
            out@ == sort_by_lum(palette@.take(i as int)),
        decreases palette@.len() - i,
    {
        let x = palette[i];
        let j = lum_insert_pos(&out, &x);
        let ghost out_old = out@;
        proof {
            lemma_insert_by_lum_at(out@, x, j as int);
        }
        out.insert(j, x);
        i = i + 1;
        proof {
            assert(out@ =~= out_old.take(j as int).push(x) + out_old.skip(j as int));
            let prev = palette@.take(i - 1);
            let cur = palette@.take(i as int);
            assert(cur.drop_last() =~= prev);
            assert(cur.last() == palette@[i - 1]);
            assert(sort_by_lum(cur) == insert_by_lum(sort_by_lum(prev), palette@[i - 1]));
        }
    }
    proof {
        assert(palette@.take(palette@.len() as int) =~= palette@);
    }
    out
}

/// The most distinctive colour of a non-empty palette: the element that
/// maximises colourfulness, taking the later one on a tie.
pub open spec fn most_colorful(s: Seq<Rgb>) -> Rgb
    recommends
        s.len() > 0,
    decreases s.len(),
{
    if s.len() <= 1 {
        s[0]
    } else {
        let rest = most_colorful(s.drop_last());
        if colorfulness(s.last()) >= colorfulness(rest) {
            s.last()
        } else {
            rest
        }
    }
}

/// The most colourful colour is in the palette and no palette entry beats it.
pub proof fn lemma_most_colorful_is_max(s: Seq<Rgb>)
    requires
        s.len() > 0,
    ensures
        s.contains(most_colorful(s)),
        forall|i: int| 0 <= i < s.len() ==> colorfulness(#[trigger] s[i]) <= colorfulness(
            most_colorful(s),
        ),
    decreases s.len(),
{
    if s.len() == 1 {
        assert(s.contains(s[0]));
    } else {
        lemma_most_colorful_is_max(s.drop_last());
        let rest = most_colorful(s.drop_last());
        assert(s.drop_last().contains(rest));
        let k = choose|k: int| 0 <= k < s.drop_last().len() && s.drop_last()[k] == rest;
        assert(s[k] == rest);
        assert forall|i: int| 0 <= i < s.len() implies colorfulness(#[trigger] s[i])
            <= colorfulness(most_colorful(s)) by {
            if i < s.len() - 1 {
                assert(s.drop_last()[i] == s[i]);
            }
        }
        if colorfulness(s.last()) >= colorfulness(rest) {
            assert(s[s.len() - 1] == most_colorful(s));
            assert(s.contains(most_colorful(s)));
        } else {
            assert(s.contains(most_colorful(s)));
        }
    }
}

/// Select the colour of a non-empty palette that maximises the colourfulness
/// metric; on ties the later colour wins.
pub fn pick_most_colorful(palette: &Vec<Rgb>) -> (best: Rgb)
    requires
        palette@.len() > 0,
    ensures
        best == most_colorful(palette@),
        palette@.contains(best),
        forall|i: int| 0 <= i < palette@.len() ==> colorfulness(#[trigger] palette@[i])
            <= colorfulness(best),
{
    let mut best: Rgb = palette[0];
    let mut best_v: u32 = colorfulness_value(&best);
    let mut i: usize = 1;
    proof {
        assert(palette@.take(1) =~= seq![palette@[0]]);
    }
    while i < palette.len()
        invariant
            1 <= i <= palette@.len(),
            palette@.len() > 0,
            best == most_colorful(palette@.take(i as int)),
            best_v as int == colorfulness(best),
        decreases palette@.len() - i,
    {
        let c = palette[i];
        let v = colorfulness_value(&c);
        proof {
            assert(palette@.take(i + 1 as int).drop_last() =~= palette@.take(i as int));
            assert(palette@.take(i + 1 as int).last() == palette@[i as int]);
        }
        if v >= best_v {
            best = c;
            best_v = v;
        }
        i = i + 1;
    }
    proof {
        assert(palette@.take(palette@.len() as int) =~= palette@);
        lemma_most_colorful_is_max(palette@);
    }
    best
}

} // verus!
