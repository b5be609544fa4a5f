//! The identifier synthesizer: a unique, transliterated, capitalised
//! source-level identifier per compiled record, its 2-letter-code alias, and
//! the bijective lookups between identifiers, record positions and code
//! strings.  Identifier names that collide are disambiguated with the
//! record's 3-letter code; a collision that survives even that fails the
//! build.

use vstd::prelude::*;

use crate::country::{record_views, CompiledCountryRecord, RecordView};
use crate::textops::{pascal_of, pascal_case, translit_of, transliterate};

verus! {

use vstd::string::StringSliceAdditionalSpecFns;

/// One row of the identifier table: the generated identifier, the 2-letter
/// alias and the 3-letter code of the record at the same position.
pub struct IdentEntry {
    pub ident: String,
    pub alias2: String,
    pub code3: String,
}

/// Mathematical view of a table row.
pub ghost struct IdentEntryView {
    pub ident: Seq<char>,
    pub alias2: Seq<char>,
    pub code3: Seq<char>,
}

impl View for IdentEntry {
    type V = IdentEntryView;

    open spec fn view(&self) -> IdentEntryView {
        IdentEntryView { ident: self.ident@, alias2: self.alias2@, code3: self.code3@ }
    }
}

pub open spec fn ident_views(s: Seq<IdentEntry>) -> Seq<IdentEntryView> {
    s.map_values(|e: IdentEntry| e@)
}

/// The undisambiguated identifier of a country name: transliterated, then
/// capitalised-word cased.
pub open spec fn base_ident_of(name: Seq<char>) -> Seq<char> {
    pascal_of(translit_of(name))
}

/// The identifiers chosen for a record sequence, in order: the base
/// identifier, or, when an earlier record already took that name, the base
/// with the record's 3-letter code appended behind an underscore.
pub open spec fn chosen_idents(rs: Seq<RecordView>) -> Seq<Seq<char>>
    decreases rs.len(),
{
    if rs.len() == 0 {
        Seq::empty()
    } else {
        let prev = chosen_idents(rs.drop_last());
        let base = base_ident_of(rs.last().country.name);
        let pick = if prev.contains(base) {
            base + "_"@ + rs.last().country.cca3
        } else {
            base
        };
        prev.push(pick)
    }
}

/// No two entries are equal.
pub open spec fn all_distinct(s: Seq<Seq<char>>) -> bool {
    forall|i: int, j: int| 0 <= i < j < s.len() ==> s[i] != s[j]
}

/// The chosen identifiers of a prefix are a prefix of the chosen
/// identifiers.
pub proof fn lemma_chosen_prefix(rs: Seq<RecordView>, k: int)
    requires
        0 <= k <= rs.len(),
    ensures
        chosen_idents(rs.take(k)) == chosen_idents(rs).take(k),
        chosen_idents(rs).len() == rs.len(),
    decreases rs.len(),
{
    if rs.len() == 0 {
        assert(rs.take(k) =~= rs);
        assert(chosen_idents(rs).take(k) =~= chosen_idents(rs.take(k)));
    } else {
        lemma_chosen_prefix(rs.drop_last(), if k <= rs.len() - 1 {
            k
        } else {
            rs.len() - 1
        });
        if k == rs.len() {
            assert(rs.take(k) =~= rs);
            assert(chosen_idents(rs).take(k) =~= chosen_idents(rs));
        } else {
            assert(rs.take(k) =~= rs.drop_last().take(k));
            assert(chosen_idents(rs).take(k) =~= chosen_idents(rs.drop_last()).take(k)) by {
                lemma_chosen_prefix(rs.drop_last(), rs.len() - 1);
            }
        }
    }
}

/// Errors of the identifier synthesizer.
#[derive(Clone, Copy, PartialEq, Eq, Structural, Debug)]
pub enum IdentError {
    /// Two records collapse to the same identifier even after appending the
    /// 3-letter code: the build fails rather than overwrite silently.
    Collision,
}

/// Whether any table row already uses this identifier.
fn contains_ident(out: &Vec<IdentEntry>, s: &String) -> (r: bool)
    ensures
        r == ident_views(out@).map_values(|e: IdentEntryView| e.ident).contains(s@),
{
    let ghost idents = ident_views(out@).map_values(|e: IdentEntryView| e.ident);
    let mut i: usize = 0;
    while i < out.len()
        invariant
            0 <= i <= out@.len(),
            idents == ident_views(out@).map_values(|e: IdentEntryView| e.ident),
            idents.len() == out@.len(),
            forall|m: int| 0 <= m < i ==> idents[m] != s@,
        decreases out@.len() - i,
    {
        if out[i].ident == *s {
            proof {
                assert(idents[i as int] == out@[i as int]@.ident);
            }
            return true;
        }
        proof {
            assert(idents[i as int] == out@[i as int]@.ident);
        }
        i = i + 1;
    }
    proof {
        if idents.contains(s@) {
            let w = choose|w: int| 0 <= w < idents.len() && idents[w] == s@;
        }
    }
    false
}

/// Derive the identifier table of an ordered record sequence.  Succeeds
/// exactly when the chosen identifiers are pairwise distinct; then each row
/// holds the record's chosen identifier, its 2-letter alias and its 3-letter
/// code.
pub fn build_identifier_table(records: &Vec<CompiledCountryRecord>) -> (r: Result<
    Vec<IdentEntry>,
    IdentError,
>)
    ensures
        match r {
            Ok(t) => {
                let rs = record_views(records@);
                &&& t@.len() == records@.len()
                &&& all_distinct(chosen_idents(rs))
                &&& forall|i: int| 0 <= i < t@.len() ==> #[trigger] ident_views(t@)[i] == (
                IdentEntryView {
                    ident: chosen_idents(rs)[i],
                    alias2: rs[i].country.cca2,
                    code3: rs[i].country.cca3,
                })
            },
            Err(_) => !all_distinct(chosen_idents(record_views(records@))),
        },
{
    let ghost rs = record_views(records@);
    let mut out: Vec<IdentEntry> = Vec::new();
    let mut i: usize = 0;
    proof {
        lemma_chosen_prefix(rs, 0);
        assert(rs.take(0) =~= Seq::<RecordView>::empty());
        assert(ident_views(out@).map_values(|e: IdentEntryView| e.ident) =~= chosen_idents(
            rs.take(0),
        ));
    }
    while i < records.len()
        invariant
            0 <= i <= records@.len(),
            rs == record_views(records@),
            rs.len() == records@.len(),
            out@.len() == i,
            ident_views(out@).map_values(|e: IdentEntryView| e.ident) == chosen_idents(
                rs.take(i as int),
            ),
            all_distinct(chosen_idents(rs.take(i as int))),
            forall|m: int| 0 <= m < i ==> #[trigger] ident_views(out@)[m] == (IdentEntryView {
                ident: chosen_idents(rs.take(i as int))[m],
                alias2: rs[m].country.cca2,
                code3: rs[m].country.cca3,
            }),
        decreases records@.len() - i,
    {
        let ghost prev = chosen_idents(rs.take(i as int));
        let ghost out_old = out@;
        proof {
            assert(rs[i as int] == records@[i as int]@);
            assert(rs.take(i + 1).drop_last() =~= rs.take(i as int));
            assert(rs.take(i + 1).last() == rs[i as int]);
        }
        let rec = &records[i];
        let translit = transliterate(rec.country.country_name.common.as_str());
        let base = pascal_case(translit.as_str());
        let collided = contains_ident(&out, &base);
        let cand: String = if collided {
            let mut c = base;
            c.append("_");
            c.append(rec.country.country_code3.as_str());
            c
        } else {
            base
        };
        proof {
            assert(cand@ == chosen_idents(rs.take(i + 1)).last());
        }
        if collided {
            // The base name was taken; if even the suffixed name is taken the
            // build fails rather than silently overwriting.
            if contains_ident(&out, &cand) {
                proof {
                    let full = chosen_idents(rs.take(i + 1));
                    let w = choose|w: int| 0 <= w < prev.len() && prev[w] == cand@;
                    assert(full[w] == full[i as int]);
                    assert(!all_distinct(chosen_idents(rs.take(i + 1))));
                    lemma_chosen_prefix(rs, i + 1);
                    assert(chosen_idents(rs).take(i + 1) == chosen_idents(rs.take(i + 1)));
                    let full2 = chosen_idents(rs);
                    assert(full2.take(i + 1)[w] == full2[w]);
                    assert(full2.take(i + 1)[i as int] == full2[i as int]);
                    assert(!all_distinct(full2));
                }
                return Err(IdentError::Collision);
            }
        }
        out.push(IdentEntry {
            ident: cand,
            alias2: rec.country.country_code2.clone(),
            code3: rec.country.country_code3.clone(),
        });
        i = i + 1;
        proof {
            let cur = chosen_idents(rs.take(i as int));
            assert(ident_views(out@).map_values(|e: IdentEntryView| e.ident) =~= cur) by {
                assert forall|m: int|
                    0 <= m < out@.len() implies ident_views(out@).map_values(
                    |e: IdentEntryView| e.ident,
                )[m] == cur[m] by {
                    assert(ident_views(out@)[m] == out@[m]@);
                    if m < i - 1 {
                        assert(out@[m] == out_old[m]);
                        assert(ident_views(out_old)[m] == out_old[m]@);
                        assert(ident_views(out_old).map_values(|e: IdentEntryView| e.ident)[m]
                            == ident_views(out_old)[m].ident);
                        assert(cur.drop_last() == prev);
                        assert(cur[m] == prev[m]);
                    }
                }
            }
            assert(all_distinct(cur)) by {
                assert(cur.drop_last() == prev);
                assert forall|a: int, b: int| 0 <= a < b < cur.len() implies cur[a] != cur[b] by {
                    if b < cur.len() - 1 {
                        assert(prev[a] == cur[a] && prev[b] == cur[b]);
                    } else {
                        assert(cur[b] == cur.last());
                        assert(prev[a] == cur[a]);
                        if cur.last() == prev[a] {
                            assert(prev.contains(prev[a]));
                        }
                    }
                }
            }
            assert forall|m: int| 0 <= m < i implies #[trigger] ident_views(out@)[m] == (
            IdentEntryView {
                ident: chosen_idents(rs.take(i as int))[m],
                alias2: rs[m].country.cca2,
                code3: rs[m].country.cca3,
            }) by {
                assert(ident_views(out@)[m] == out@[m]@);
                if m < i - 1 {
                    assert(out@[m] == out_old[m]);
                    assert(ident_views(out_old)[m] == out_old[m]@);
                    assert(cur.drop_last() == prev);
                    assert(cur[m] == prev[m]);
                }
            }
        }
    }
    proof {
        assert(rs.take(rs.len() as int) =~= rs);
    }
    Ok(out)
}

/// A generated, closed identifier of one archive generation: the dense
/// position of its record.
#[derive(Clone, Copy, PartialEq, Eq, Structural, Debug)]
pub struct CountryIdentifier {
    pub index: u32,
}

/// The identifier table rows match the records they stand beside: same
/// length, chosen identifiers, matching aliases and codes, and no duplicate
/// identifier.
pub open spec fn table_matches(t: Seq<IdentEntryView>, rs: Seq<RecordView>) -> bool {
    &&& t.len() == rs.len()
    &&& all_distinct(chosen_idents(rs))
    &&& forall|i: int| 0 <= i < t.len() ==> #[trigger] t[i] == (IdentEntryView {
        ident: chosen_idents(rs)[i],
        alias2: rs[i].country.cca2,
        code3: rs[i].country.cca3,
    })
}

/// Identifiers and record positions are in bijection: the identifier at
/// position `i` resolves to the record whose `record_id` is exactly `i`, and
/// no two positions share an identifier name, so every `record_id` in `0..N`
/// has exactly one identifier.
pub proof fn lemma_identifier_bijection(t: Seq<IdentEntryView>, rs: Seq<RecordView>)
    requires
        table_matches(t, rs),
        crate::archive::ids_contiguous(rs),
    ensures
        forall|i: int| 0 <= i < t.len() ==> (#[trigger] rs[i].record_id) as int == i,
        forall|i: int, j: int| 0 <= i < j < t.len() ==> (#[trigger] t[i]).ident != (
        #[trigger] t[j]).ident,
{
    lemma_chosen_prefix(rs, rs.len() as int);
    assert forall|i: int, j: int| 0 <= i < j < t.len() implies (#[trigger] t[i]).ident != (
    #[trigger] t[j]).ident by {
        assert(chosen_idents(rs)[i] != chosen_idents(rs)[j]);
    }
}

} // verus!
