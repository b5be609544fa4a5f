//! The offline compiler, end to end: validate and order the surviving
//! records, assign dense identifiers, serialise and compress the archive,
//! and derive the identifier table — all from the same ordered sequence in
//! the same run.  The runtime loader is the inverse: decompress and validate
//! once, then expose immutable lookups.

use vstd::prelude::*;

use crate::archive::{
    arch_enc, arch_enc_is, arch_ok, compress_archive, ids_contiguous, lemma_arch_enc_injective,
    load_archive, ArchiveError,
};
use crate::bytes_enc::str_ok;
use crate::country::{
    record_views, views_of_currencies, views_of_languages, views_of_strings, CompiledCountryRecord,
    Country, Currency, RecordView, RenderedFlagAssets,
};
use crate::ident::{
    all_distinct, build_identifier_table, chosen_idents, ident_views, table_matches,
    CountryIdentifier, IdentEntry, IdentEntryView,
};
use crate::list_enc::{
    flatten_pairs, flatten_triples, lemma_flatten_pairs_len, lemma_flatten_rgb_len,
    lemma_flatten_triples_len, vec_str_ok,
};
use crate::order::{
    assign_ids, entry_views, make_entries, ordering_spec, sort_by_collation, EntryView,
};
use crate::record_enc::rec_ok;
use crate::strutil::{bytes_eq, lower_bytes, str_eq, to_lower_bytes};
use crate::textops::collation_key_of;

verus! {

use vstd::string::StringSliceAdditionalSpecFns;

/// Why a compilation run failed as a whole.
#[derive(Clone, Copy, PartialEq, Eq, Structural, Debug)]
pub enum CompileError {
    /// A record or the record count does not fit the archive format's
    /// 32-bit length fields.
    TooLarge,
    /// Two records collapse to the same identifier even after
    /// disambiguation.
    IdentifierCollision,
}

/// A string fits the archive format's length field.
fn str_fits(s: &str) -> (r: bool)
    ensures
        r == str_ok(s@),
{
    let b = s.as_bytes_vec();
    proof {
        assert(b@ == s.spec_bytes());
        assert(s.spec_bytes() == vstd::utf8::encode_utf8(s@));
    }
    (b.len() as u64) < 0x1_0000_0000u64
}

/// A string list fits the archive format.
fn vec_str_fits(v: &Vec<String>) -> (r: bool)
    ensures
        r == vec_str_ok(views_of_strings(v@)),
{
    if !((v.len() as u64) < 0x1_0000_0000u64) {
        proof {
            assert(views_of_strings(v@).len() == v@.len());
        }
        return false;
    }
    let mut i: usize = 0;
    while i < v.len()
        invariant
            0 <= i <= v@.len(),
            v@.len() < 0x1_0000_0000,
            forall|m: int| 0 <= m < i ==> str_ok(#[trigger] views_of_strings(v@)[m]),
        decreases v@.len() - i,
    {
        if !str_fits(v[i].as_str()) {
            proof {
                assert(views_of_strings(v@)[i as int] == v@[i as int]@);
            }
            return false;
        }
        proof {
            assert(views_of_strings(v@)[i as int] == v@[i as int]@);
        }
        i = i + 1;
    }
    true
}

/// A flattened triple list is well-formed exactly when it fits the length
/// field and every component string does.
proof fn lemma_flatten_triples_ok(v: Seq<(Seq<char>, Seq<char>, Seq<char>)>)
    ensures
        vec_str_ok(flatten_triples(v)) <==> (3 * v.len() < 0x1_0000_0000 && forall|i: int|
            0 <= i < v.len() ==> str_ok((#[trigger] v[i]).0) && str_ok(v[i].1) && str_ok(v[i].2)),
    decreases v.len(),
{
    lemma_flatten_triples_len(v);
    if v.len() == 0 {
    } else {
        lemma_flatten_triples_ok(v.drop_first());
        lemma_flatten_triples_len(v.drop_first());
        let f = flatten_triples(v);
        assert(f[0] == v.first().0 && f[1] == v.first().1 && f[2] == v.first().2);
        assert(forall|m: int| 0 <= m < flatten_triples(v.drop_first()).len()
            ==> #[trigger] flatten_triples(v.drop_first())[m] == f[3 + m]);
        if vec_str_ok(f) {
            assert forall|i: int|
                0 <= i < v.len() implies str_ok((#[trigger] v[i]).0) && str_ok(v[i].1) && str_ok(
                v[i].2,
            ) by {
                if i == 0 {
                    assert(str_ok(f[0]) && str_ok(f[1]) && str_ok(f[2]));
                } else {
                    assert(v.drop_first()[i - 1] == v[i]);
                }
            }
        }
        if 3 * v.len() < 0x1_0000_0000 && (forall|i: int|
            0 <= i < v.len() ==> str_ok((#[trigger] v[i]).0) && str_ok(v[i].1) && str_ok(v[i].2)) {
            assert forall|k: int| 0 <= k < f.len() implies str_ok(#[trigger] f[k]) by {
                if k < 3 {
                    assert(str_ok(v[0].0) && str_ok(v[0].1) && str_ok(v[0].2));
                } else {
                    assert(f[k] == flatten_triples(v.drop_first())[k - 3]);
                    assert(vec_str_ok(flatten_triples(v.drop_first()))) by {
                        assert(forall|i: int|
                            0 <= i < v.drop_first().len() ==> str_ok(
                                (#[trigger] v.drop_first()[i]).0,
                            ) && str_ok(v.drop_first()[i].1) && str_ok(v.drop_first()[i].2));
                    }
                }
            }
        }
    }
}

/// A flattened pair list is well-formed exactly when it fits the length
/// field and every component string does.
proof fn lemma_flatten_pairs_ok(v: Seq<(Seq<char>, Seq<char>)>)
    ensures
        vec_str_ok(flatten_pairs(v)) <==> (2 * v.len() < 0x1_0000_0000 && forall|i: int|
            0 <= i < v.len() ==> str_ok((#[trigger] v[i]).0) && str_ok(v[i].1)),
    decreases v.len(),
{
    lemma_flatten_pairs_len(v);
    if v.len() == 0 {
    } else {
        lemma_flatten_pairs_ok(v.drop_first());
        lemma_flatten_pairs_len(v.drop_first());
        let f = flatten_pairs(v);
        assert(f[0] == v.first().0 && f[1] == v.first().1);
        assert(forall|m: int| 0 <= m < flatten_pairs(v.drop_first()).len()
            ==> #[trigger] flatten_pairs(v.drop_first())[m] == f[2 + m]);
        if vec_str_ok(f) {
            assert forall|i: int|
                0 <= i < v.len() implies str_ok((#[trigger] v[i]).0) && str_ok(v[i].1) by {
                if i == 0 {
                    assert(str_ok(f[0]) && str_ok(f[1]));
                } else {
                    assert(v.drop_first()[i - 1] == v[i]);
                }
            }
        }
        if 2 * v.len() < 0x1_0000_0000 && (forall|i: int|
            0 <= i < v.len() ==> str_ok((#[trigger] v[i]).0) && str_ok(v[i].1)) {
            assert forall|k: int| 0 <= k < f.len() implies str_ok(#[trigger] f[k]) by {
                if k < 2 {
                    assert(str_ok(v[0].0) && str_ok(v[0].1));
                } else {
                    assert(f[k] == flatten_pairs(v.drop_first())[k - 2]);
                    assert(vec_str_ok(flatten_pairs(v.drop_first()))) by {
                        assert(forall|i: int|
                            0 <= i < v.drop_first().len() ==> str_ok(
                                (#[trigger] v.drop_first()[i]).0,
                            ) && str_ok(v.drop_first()[i].1));
                    }
                }
            }
        }
    }
}

/// The currency entries fit the archive format.
fn currencies_fit(v: &Vec<(String, Currency)>) -> (r: bool)
    ensures
        r == vec_str_ok(flatten_triples(views_of_currencies(v@))),
{
    proof {
        lemma_flatten_triples_ok(views_of_currencies(v@));
        assert(views_of_currencies(v@).len() == v@.len());
    }
    if !((v.len() as u64) <= 0x5555_5555u64) {
        return false;
    }
    let mut i: usize = 0;
    while i < v.len()
        invariant
            0 <= i <= v@.len(),
            3 * v@.len() < 0x1_0000_0000,
            forall|m: int|
                0 <= m < i ==> str_ok((#[trigger] views_of_currencies(v@)[m]).0) && str_ok(
                    views_of_currencies(v@)[m].1,
                ) && str_ok(views_of_currencies(v@)[m].2),
        decreases v@.len() - i,
    {
        let (code, cur) = &v[i];
        let ok = str_fits(code.as_str()) && str_fits(cur.name.as_str()) && str_fits(
            cur.symbol.as_str(),
        );
        proof {
            assert(views_of_currencies(v@)[i as int] == (v@[i as int].0@, v@[i as int].1.name@, v@[
                i as int].1.symbol@));
        }
        if !ok {
            proof {
                lemma_flatten_triples_ok(views_of_currencies(v@));
            }
            return false;
        }
        i = i + 1;
    }
    proof {
        lemma_flatten_triples_ok(views_of_currencies(v@));
    }
    true
}

/// The language entries fit the archive format.
fn languages_fit(v: &Vec<(String, String)>) -> (r: bool)
    ensures
        r == vec_str_ok(flatten_pairs(views_of_languages(v@))),
{
    proof {
        lemma_flatten_pairs_ok(views_of_languages(v@));
        assert(views_of_languages(v@).len() == v@.len());
    }
    if !((v.len() as u64) <= 0x7FFF_FFFFu64) {
        return false;
    }
    let mut i: usize = 0;
    while i < v.len()
        invariant
            0 <= i <= v@.len(),
            2 * v@.len() < 0x1_0000_0000,
            forall|m: int|
                0 <= m < i ==> str_ok((#[trigger] views_of_languages(v@)[m]).0) && str_ok(
                    views_of_languages(v@)[m].1,
                ),
        decreases v@.len() - i,
    {
        let (code, name) = &v[i];
        let ok = str_fits(code.as_str()) && str_fits(name.as_str());
        proof {
            assert(views_of_languages(v@)[i as int] == (v@[i as int].0@, v@[i as int].1@));
        }
        if !ok {
            proof {
                lemma_flatten_pairs_ok(views_of_languages(v@));
            }
            return false;
        }
        i = i + 1;
    }
    proof {
        lemma_flatten_pairs_ok(views_of_languages(v@));
    }
    true
}

/// Whether one compiled record fits the archive format's length fields.
pub fn rec_encodable(rec: &CompiledCountryRecord) -> (r: bool)
    ensures
        r == rec_ok(rec@),
{
    proof {
        lemma_flatten_rgb_len(rec.assets.flag_palette@);
    }
    let c = &rec.country;
    str_fits(c.country_name.common.as_str()) && vec_str_fits(&c.top_level_domain) && str_fits(
        c.country_code3.as_str(),
    ) && str_fits(c.country_code2.as_str()) && currencies_fit(&c.currencies) && languages_fit(
        &c.languages,
    ) && vec_str_fits(&c.neighbours) && str_fits(c.emoji.as_str()) && vec_str_fits(&c.continents)
        && str_fits(c.flag.url.as_str()) && (match &c.flag.description {
        Some(d) => str_fits(d.as_str()),
        None => true,
    }) && vec_str_fits(&c.capital) && str_fits(c.car.side.as_str()) && str_fits(
        c.dialing_code.root.as_str(),
    ) && vec_str_fits(&c.dialing_code.suffixes) && str_fits(rec.assets.flag_ascii_plain.as_str())
        && str_fits(rec.assets.flag_ascii_colored.as_str()) && ((rec.assets.flag_palette.len()
        as u64) <= 0x5555_5555u64)
}

/// Whether every record fits the archive format's length fields.
fn all_encodable(records: &Vec<CompiledCountryRecord>) -> (r: bool)
    ensures
        r == (forall|m: int|
            0 <= m < records@.len() ==> rec_ok(#[trigger] record_views(records@)[m])),
{
    let mut i: usize = 0;
    while i < records.len()
        invariant
            0 <= i <= records@.len(),
            forall|m: int| 0 <= m < i ==> rec_ok(#[trigger] record_views(records@)[m]),
        decreases records@.len() - i,
    {
        if !rec_encodable(&records[i]) {
            proof {
                assert(record_views(records@)[i as int] == records@[i as int]@);
                assert(!rec_ok(record_views(records@)[i as int]));
            }
            return false;
        }
        proof {
            assert(record_views(records@)[i as int] == records@[i as int]@);
        }
        i = i + 1;
    }
    true
}

/// Everything one compilation run produces: the ordered records, the
/// identifier table derived from the same sequence, and the compressed
/// archive blob.
pub struct CompiledArchive {
    pub records: Vec<CompiledCountryRecord>,
    pub table: Vec<IdentEntry>,
    pub blob: Vec<u8>,
}

/// The record views a compilation of these surviving pairs must produce:
/// the canonical ordering with dense identifiers.
pub open spec fn compile_spec(pairs: Seq<(Country, RenderedFlagAssets)>) -> Seq<RecordView> {
    ordering_spec(pair_entry_views(pairs))
}

/// The entries the orderer sees: collation key of the name, fetch position,
/// record data.
pub open spec fn pair_entry_views(pairs: Seq<(Country, RenderedFlagAssets)>) -> Seq<EntryView> {
    Seq::new(pairs.len(), |i: int| EntryView {
        key: collation_key_of(pairs[i].0@.name),
        idx: i as u32,
        country: pairs[i].0@,
        assets: pairs[i].1@,
    })
}

/// Compile the surviving records into one archive generation.  The result is
/// a pure function of the input sequence: the canonical ordering, the dense
/// identifiers `0..N`, the archive bytes and the identifier table are all
/// determined by it, so an unchanged input set reproduces them identically.
/// Compilation succeeds exactly when every record fits the archive format's
/// length fields and the chosen identifiers are pairwise distinct.
pub fn compile(pairs: Vec<(Country, RenderedFlagAssets)>) -> (r: Result<
    CompiledArchive,
    CompileError,
>)
    ensures
        match r {
            Ok(out) => {
                let rs = compile_spec(pairs@);
                &&& record_views(out.records@) == rs
                &&& arch_ok(rs)
                &&& ids_contiguous(rs)
                &&& crate::archive::gunzip_of(out.blob@) == Some(arch_enc(rs))
                &&& table_matches(ident_views(out.table@), rs)
            },
            Err(e) => match e {
                CompileError::TooLarge => !arch_ok(compile_spec(pairs@)),
                CompileError::IdentifierCollision => !all_distinct(
                    chosen_idents(compile_spec(pairs@)),
                ),
            },
        },
{
    proof {
        crate::order::lemma_sort_entries_ensures(pair_entry_views(pairs@));
        assert(pair_entry_views(pairs@).len() == pairs@.len());
        assert(compile_spec(pairs@).len() == pairs@.len());
    }
    if !((pairs.len() as u64) < 0x1_0000_0000u64) {
        proof {
            assert(compile_spec(pairs@).len() >= 0x1_0000_0000);
            assert(!arch_ok(compile_spec(pairs@)));
        }
        return Err(CompileError::TooLarge);
    }
    let ghost pvs = pairs@;
    let entries = make_entries(pairs);
    proof {
        assert(entry_views(entries@) =~= pair_entry_views(pvs));
    }
    let sorted = sort_by_collation(entries);
    proof {
        crate::order::lemma_sort_entries_ensures(pair_entry_views(pvs));
    }
    let records = assign_ids(sorted);
    let ghost rs = compile_spec(pvs);
    proof {
        assert(record_views(records@) == rs);
        crate::order::lemma_ordering_contiguous(pair_entry_views(pvs));
    }
    // Check that every record fits the archive format.
    if !all_encodable(&records) {
        proof {
            assert(!arch_ok(rs));
        }
        return Err(CompileError::TooLarge);
    }
    let table = match build_identifier_table(&records) {
        Ok(t) => t,
        Err(_) => {
            return Err(CompileError::IdentifierCollision);
        },
    };
    let blob = compress_archive(&records);
    Ok(CompiledArchive { records, table, blob })
}

/// The loaded, immutable archive: the decoded records and the identifier
/// table rebuilt from the same ordered sequence.  All accessors borrow from
/// it; nothing mutates it after loading.
pub struct LoadedArchive {
    pub records: Vec<CompiledCountryRecord>,
    pub table: Vec<IdentEntry>,
}

impl LoadedArchive {
    /// The loader's guarantee: dense identifiers and a matching identifier
    /// table.
    pub open spec fn wf(&self) -> bool {
        &&& arch_ok(record_views(self.records@))
        &&& ids_contiguous(record_views(self.records@))
        &&& table_matches(ident_views(self.table@), record_views(self.records@))
    }

    /// Decompress, decode and validate the embedded archive, and rebuild the
    /// identifier table from the decoded sequence.  Fails cleanly on a
    /// corrupted blob, an unrecognised schema tag, non-dense identifiers or
    /// an identifier collision: this marks a build artifact mismatch.
    pub fn load(compressed: &Vec<u8>) -> (r: Result<LoadedArchive, ArchiveError>)
        ensures
            match r {
                Ok(a) => {
                    &&& a.wf()
                    &&& crate::archive::gunzip_of(compressed@) == Some(
                        arch_enc(record_views(a.records@)),
                    )
                },
                Err(_) => match crate::archive::gunzip_of(compressed@) {
                    None => true,
                    Some(bytes) => forall|rs: Seq<crate::country::RecordView>|
                        !(#[trigger] arch_enc_is(bytes, rs) && ids_contiguous(rs) && all_distinct(
                            chosen_idents(rs),
                        )),
                },
            },
    {
        let records = match load_archive(compressed) {
            Ok(v) => v,
            Err(e) => {
                return Err(e);
            },
        };
        let table = match build_identifier_table(&records) {
            Ok(t) => t,
            Err(_) => {
                proof {
                    let rs0 = record_views(records@);
                    if crate::archive::gunzip_of(compressed@) is Some {
                        let bytes = crate::archive::gunzip_of(compressed@)->Some_0;
                        assert forall|rs: Seq<crate::country::RecordView>|
                            !(#[trigger] arch_enc_is(bytes, rs) && ids_contiguous(rs)
                                && all_distinct(chosen_idents(rs))) by {
                            if arch_enc_is(bytes, rs) && ids_contiguous(rs) && all_distinct(
                                chosen_idents(rs),
                            ) {
                                lemma_arch_enc_injective(rs, rs0);
                            }
                        }
                    }
                }
                return Err(ArchiveError::BadRecordIds);
            },
        };
        Ok(LoadedArchive { records, table })
    }

    /// The ordered records of this archive generation.
    pub fn all_countries(&self) -> (r: &Vec<CompiledCountryRecord>)
        ensures
            r == &self.records,
    {
        &self.records
    }

    /// The record of an identifier: direct indexed lookup.
    pub fn identifier_to_record(&self, id: CountryIdentifier) -> (r: &CompiledCountryRecord)
        requires
            id.index < self.records@.len(),
        ensures
            r == &self.records@[id.index as int],
    {
        &self.records[id.index as usize]
    }

    /// The record of an identifier, or nothing where the identifier does not
    /// belong to this archive generation.
    pub fn lookup_by_identifier(&self, id: CountryIdentifier) -> (r: Option<
        &CompiledCountryRecord,
    >)
        ensures
            match r {
                Some(rec) => id.index < self.records@.len() && rec == &self.records@[id.index as int],
                None => id.index >= self.records@.len(),
            },
    {
        if (id.index as usize) < self.records.len() {
            Some(&self.records[id.index as usize])
        } else {
            None
        }
    }

    /// The identifier whose record carries this 3-letter code: the first
    /// match in archive order, or nothing where no record carries it.
    pub fn record_id_from_3letter(&self, code: &str) -> (r: Option<CountryIdentifier>)
        requires
            self.wf(),
        ensures
            match r {
                Some(id) => {
                    &&& id.index < self.table@.len()
                    &&& ident_views(self.table@)[id.index as int].code3 == code@
                    &&& forall|m: int|
                        0 <= m < id.index ==> (#[trigger] ident_views(self.table@)[m]).code3
                            != code@
                },
                None => forall|m: int|
                    0 <= m < self.table@.len() ==> (#[trigger] ident_views(self.table@)[m]).code3
                        != code@,
            },
    {
        let mut i: usize = 0;
        while i < self.table.len()
            invariant
                0 <= i <= self.table@.len(),
                self.table@.len() < 0x1_0000_0000,
                forall|m: int| 0 <= m < i ==> (#[trigger] ident_views(self.table@)[m]).code3
                    != code@,
            decreases self.table@.len() - i,
        {
            if str_eq(self.table[i].code3.as_str(), code) {
                proof {
                    assert(ident_views(self.table@)[i as int] == self.table@[i as int]@);
                }
                return Some(CountryIdentifier { index: i as u32 });
            }
            proof {
                assert(ident_views(self.table@)[i as int] == self.table@[i as int]@);
            }
            i = i + 1;
        }
        None
    }

    /// The record carrying this 3-letter code: the first match in archive
    /// order.
    pub fn lookup_by_3letter_code(&self, code: &str) -> (r: Option<&CompiledCountryRecord>)
        requires
            self.wf(),
        ensures
            match r {
                Some(rec) => exists|i: int|
                    0 <= i < self.records@.len() && rec == &self.records@[i] && (
                    #[trigger] ident_views(self.table@)[i]).code3 == code@,
                None => forall|m: int|
                    0 <= m < self.table@.len() ==> (#[trigger] ident_views(self.table@)[m]).code3
                        != code@,
            },
    {
        match self.record_id_from_3letter(code) {
            Some(id) => {
                let r = self.identifier_to_record(id);
                proof {
                    assert(ident_views(self.table@)[id.index as int].code3 == code@);
                }
                Some(r)
            },
            None => None,
        }
    }

    /// The 3-letter code of the record carrying this 2-letter code, matched
    /// without regard to ASCII case: the alias parse of the generated
    /// identifiers.
    pub fn three_letter_from_2letter(&self, code2: &str) -> (r: Option<&String>)
        requires
            self.wf(),
        ensures
            match r {
                Some(c3) => exists|i: int|
                    0 <= i < self.table@.len() && c3@ == (#[trigger] ident_views(
                        self.table@,
                    )[i]).code3 && lower_bytes(
                        vstd::utf8::encode_utf8(ident_views(self.table@)[i].alias2),
                    ) == lower_bytes(vstd::utf8::encode_utf8(code2@)),
                None => forall|m: int|
                    0 <= m < self.table@.len() ==> lower_bytes(
                        vstd::utf8::encode_utf8((#[trigger] ident_views(self.table@)[m]).alias2),
                    ) != lower_bytes(vstd::utf8::encode_utf8(code2@)),
            },
    {
        let folded = fold_ascii(code2);
        let mut i: usize = 0;
        while i < self.table.len()
            invariant
                0 <= i <= self.table@.len(),
                folded@ == lower_bytes(vstd::utf8::encode_utf8(code2@)),
                forall|m: int|
                    0 <= m < i ==> lower_bytes(
                        vstd::utf8::encode_utf8((#[trigger] ident_views(self.table@)[m]).alias2),
                    ) != lower_bytes(vstd::utf8::encode_utf8(code2@)),
            decreases self.table@.len() - i,
        {
            let cand = fold_ascii(self.table[i].alias2.as_str());
            proof {
                assert(ident_views(self.table@)[i as int] == self.table@[i as int]@);
            }
            if bytes_eq(&cand, &folded) {
                return Some(&self.table[i].code3);
            }
            i = i + 1;
        }
        None
    }
}

/// Both resolution paths land on one record.  When no two table rows share a
/// 3-letter code and no two share a case-folded 2-letter alias, any row that
/// carries row `i`'s 3-letter code is row `i` itself, and likewise for its
/// folded alias: the first match each lookup returns is therefore the unique
/// match, and resolving a record by its 3-letter code or by its 2-letter
/// alias yields the same position, hence the same record.
pub proof fn lemma_resolution_paths_agree(t: Seq<IdentEntryView>, i: int)
    requires
        0 <= i < t.len(),
        forall|a: int, b: int| 0 <= a < b < t.len() ==> (#[trigger] t[a]).code3 != (
        #[trigger] t[b]).code3,
        forall|a: int, b: int|
            0 <= a < b < t.len() ==> lower_bytes(
                vstd::utf8::encode_utf8((#[trigger] t[a]).alias2),
            ) != lower_bytes(vstd::utf8::encode_utf8((#[trigger] t[b]).alias2)),
    ensures
        forall|k: int| 0 <= k < t.len() && (#[trigger] t[k]).code3 == t[i].code3 ==> k == i,
        forall|k: int|
            0 <= k < t.len() && lower_bytes(vstd::utf8::encode_utf8((#[trigger] t[k]).alias2))
                == lower_bytes(vstd::utf8::encode_utf8(t[i].alias2)) ==> k == i,
{
    assert forall|k: int| 0 <= k < t.len() && (#[trigger] t[k]).code3 == t[i].code3 implies k
        == i by {
        if k < i {
            assert(t[k].code3 != t[i].code3);
        } else if k > i {
            assert(t[i].code3 != t[k].code3);
        }
    }
    assert forall|k: int|
        0 <= k < t.len() && lower_bytes(vstd::utf8::encode_utf8((#[trigger] t[k]).alias2))
            == lower_bytes(vstd::utf8::encode_utf8(t[i].alias2)) implies k == i by {
        if k < i {
            assert(lower_bytes(vstd::utf8::encode_utf8(t[k].alias2)) != lower_bytes(
                vstd::utf8::encode_utf8(t[i].alias2),
            ));
        } else if k > i {
            assert(lower_bytes(vstd::utf8::encode_utf8(t[i].alias2)) != lower_bytes(
                vstd::utf8::encode_utf8(t[k].alias2),
            ));
        }
    }
}

/// The ASCII-case-folded bytes of a string: how identifier aliases are
/// matched.
fn fold_ascii(s: &str) -> (r: Vec<u8>)
    ensures
        r@ == lower_bytes(vstd::utf8::encode_utf8(s@)),
{
    let b = s.as_bytes_vec();
    proof {
        assert(b@ == s.spec_bytes());
    }
    to_lower_bytes(&b)
}

} // verus!
