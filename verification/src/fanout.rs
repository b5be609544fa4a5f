//! The compiler fan-out: per-record asset derivation over the whole input,
//! and the order-preserving join of its results.  Derivation results are
//! index-aligned with the input, so a concurrent driver that fills each slot
//! by input position yields the same merge as the sequential run; a record
//! whose derivation failed is dropped, not retried, and aborts nothing.

use vstd::prelude::*;

use crate::assets::{derive_assets, derive_spec};
use crate::country::{AssetsView, Country, RenderedFlagAssets};

verus! {

/// The view of an optional derivation result.
pub open spec fn opt_assets_view(o: Option<RenderedFlagAssets>) -> Option<AssetsView> {
    match o {
        None => None,
        Some(a) => Some(a@),
    }
}

/// Derive assets for every record in input order.  The output has the same
/// length and the same index correspondence as the input: slot `i` holds the
/// derivation of flag `i`, or nothing where it failed.
pub fn derive_all(flags: &Vec<Vec<u8>>) -> (r: Vec<Option<RenderedFlagAssets>>)
    ensures
        r@.len() == flags@.len(),
        forall|i: int| 0 <= i < flags@.len() ==> opt_assets_view(#[trigger] r@[i]) == derive_spec(
            flags@[i]@,
        ),
{
    let mut out: Vec<Option<RenderedFlagAssets>> = Vec::new();
    let mut i: usize = 0;
    while i < flags.len()
        invariant
            0 <= i <= flags@.len(),
            out@.len() == i,
            forall|m: int| 0 <= m < i ==> opt_assets_view(#[trigger] out@[m]) == derive_spec(
                flags@[m]@,
            ),
        decreases flags@.len() - i,
    {
        match derive_assets(&flags[i]) {
            Ok(a) => out.push(Some(a)),
            Err(_) => out.push(None),
        }
        i = i + 1;
    }
    out
}

/// The surviving pairs: each record whose slot holds derived assets, paired
/// with them, in input order.
pub open spec fn survivors(
    cs: Seq<Country>,
    ds: Seq<Option<RenderedFlagAssets>>,
) -> Seq<(Country, RenderedFlagAssets)>
    decreases cs.len(),
{
    if cs.len() == 0 || ds.len() == 0 {
        Seq::empty()
    } else {
        match ds.first() {
            Some(a) => seq![(cs.first(), a)] + survivors(cs.drop_first(), ds.drop_first()),
            None => survivors(cs.drop_first(), ds.drop_first()),
        }
    }
}

/// The number of slots that hold derived assets.
pub open spec fn count_some(ds: Seq<Option<RenderedFlagAssets>>) -> int
    decreases ds.len(),
{
    if ds.len() == 0 {
        0
    } else {
        (if ds.first() is Some {
            1int
        } else {
            0int
        }) + count_some(ds.drop_first())
    }
}

/// Exactly the records whose derivation succeeded survive the join: of N
/// fetched records with K failed derivations, N - K pairs go on to the
/// orderer, which then assigns them the dense identifiers 0 .. N - K.
pub proof fn lemma_survivor_count(cs: Seq<Country>, ds: Seq<Option<RenderedFlagAssets>>)
    requires
        cs.len() == ds.len(),
    ensures
        survivors(cs, ds).len() == count_some(ds),
    decreases cs.len(),
{
    if cs.len() > 0 {
        lemma_survivor_count(cs.drop_first(), ds.drop_first());
    }
}

/// Join the raw records with their index-aligned derivation results,
/// keeping input order and dropping the records whose derivation failed.
/// Completion order of a concurrent derivation never matters: only the slot
/// positions do.
pub fn merge_derived(raws: Vec<Country>, derived: Vec<Option<RenderedFlagAssets>>) -> (r: Vec<
    (Country, RenderedFlagAssets),
>)
    requires
        raws@.len() == derived@.len(),
    ensures
        r@ == survivors(raws@, derived@),
{
    let ghost cs0 = raws@;
    let ghost ds0 = derived@;
    let mut rest_c = raws;
    let mut rest_d = derived;
    let mut out: Vec<(Country, RenderedFlagAssets)> = Vec::new();
    proof {
        assert(cs0.skip(0) =~= cs0);
        assert(ds0.skip(0) =~= ds0);
        assert(out@ + survivors(cs0.skip(0), ds0.skip(0)) =~= survivors(cs0, ds0));
    }
    let total = rest_c.len();
    proof {
        assert(cs0.len() == total);
    }
    let mut i: usize = 0;
    while rest_c.len() > 0
        invariant
            0 <= i <= cs0.len(),
            cs0.len() <= usize::MAX,
            cs0.len() == ds0.len(),
            rest_c@ == cs0.skip(i as int),
            rest_d@ == ds0.skip(i as int),
            out@ + survivors(cs0.skip(i as int), ds0.skip(i as int)) == survivors(cs0, ds0),
        decreases rest_c@.len(),
    {
        let ghost rc_old = rest_c@;
        let ghost rd_old = rest_d@;
        let ghost out_old = out@;
        let c = rest_c.remove(0);
        let d = rest_d.remove(0);
        proof {
            assert(rest_c@ =~= rc_old.skip(1));
            assert(rest_d@ =~= rd_old.skip(1));
        }
        match d {
            Some(a) => {
                out.push((c, a));
                proof {
                    assert(rc_old.drop_first() =~= rest_c@);
                    assert(rd_old.drop_first() =~= rest_d@);
                    assert(survivors(rc_old, rd_old) =~= seq![(c, a)] + survivors(
                        rest_c@,
                        rest_d@,
                    ));
                    assert(out@ =~= out_old + seq![(c, a)]);
                    assert(out@ + survivors(rest_c@, rest_d@) =~= out_old + survivors(
                        rc_old,
                        rd_old,
                    ));
                }
            },
            None => {
                proof {
                    assert(rc_old.drop_first() =~= rest_c@);
                    assert(rd_old.drop_first() =~= rest_d@);
                    assert(survivors(rc_old, rd_old) =~= survivors(rest_c@, rest_d@));
                }
            },
        }
        i = i + 1;
        proof {
            assert forall|m: int| 0 <= m < rest_c@.len() implies rest_c@[m] == cs0.skip(
                i as int,
            )[m] by {
                assert(rest_c@[m] == rc_old.skip(1)[m]);
                assert(rc_old.skip(1)[m] == rc_old[m + 1]);
                assert(rc_old[m + 1] == cs0.skip(i - 1)[m + 1]);
                assert(cs0.skip(i - 1)[m + 1] == cs0[i + m]);
                assert(cs0.skip(i as int)[m] == cs0[i + m]);
            }
            assert(rest_c@ =~= cs0.skip(i as int));
            assert forall|m: int| 0 <= m < rest_d@.len() implies rest_d@[m] == ds0.skip(
                i as int,
            )[m] by {
                assert(rest_d@[m] == rd_old.skip(1)[m]);
                assert(rd_old.skip(1)[m] == rd_old[m + 1]);
                assert(rd_old[m + 1] == ds0.skip(i - 1)[m + 1]);
                assert(ds0.skip(i - 1)[m + 1] == ds0[i + m]);
                assert(ds0.skip(i as int)[m] == ds0[i + m]);
            }
            assert(rest_d@ =~= ds0.skip(i as int));
        }
    }
    proof {
        assert(cs0.skip(i as int).len() == 0);
        assert(survivors(cs0.skip(i as int), ds0.skip(i as int)) =~= Seq::<
            (Country, RenderedFlagAssets),
        >::empty());
        assert(out@ =~= survivors(cs0, ds0));
    }
    out
}

} // verus!
