//! The archive round trip, corruption handling, the deterministic pipeline,
//! and the bijective identifier lookups.

use countryfetch::archive::{decode_archive, encode_archive};
use countryfetch::color::Rgb;
use countryfetch::country::{
    Car, CompiledCountryRecord, Country, Currency, Flag, Idd, Name, RenderedFlagAssets,
};
use countryfetch::fanout::merge_derived;
use countryfetch::ident::CountryIdentifier;
use countryfetch::pipeline::{compile, CompileError, LoadedArchive};

fn plain_grid() -> String {
    let mut rows: Vec<String> = Vec::new();
    for _ in 0..17 {
        rows.push("#".repeat(40));
    }
    rows.join("\n")
}

fn sample_assets() -> RenderedFlagAssets {
    RenderedFlagAssets {
        flag_ascii_plain: plain_grid(),
        flag_ascii_colored: plain_grid(),
        flag_palette: vec![Rgb { r: 0, g: 0, b: 0 }, Rgb { r: 200, g: 10, b: 10 }],
        brightest_color: Rgb { r: 200, g: 10, b: 10 },
    }
}

fn sample_country(name: &str, cca2: &str, cca3: &str) -> Country {
    Country {
        country_name: Name { common: name.to_string() },
        top_level_domain: vec![format!(".{}", cca2.to_lowercase())],
        country_code3: cca3.to_string(),
        country_code2: cca2.to_string(),
        currencies: vec![(
            "EUR".to_string(),
            Currency { name: "Euro".to_string(), symbol: "€".to_string() },
        )],
        languages: vec![("eng".to_string(), "English".to_string())],
        neighbours: vec!["FRA".to_string()],
        area_m2: 1_000_000_000,
        emoji: "🏳".to_string(),
        population: 1_000_000,
        continents: vec!["Europe".to_string()],
        flag: Flag {
            url: format!("https://example.test/{}.svg", cca2),
            description: Some("a flag".to_string()),
        },
        capital: vec!["Capital".to_string()],
        car: Car { side: "right".to_string() },
        dialing_code: Idd { root: "+4".to_string(), suffixes: vec!["9".to_string()] },
    }
}

fn record(name: &str, cca2: &str, cca3: &str, id: u32) -> CompiledCountryRecord {
    CompiledCountryRecord { country: sample_country(name, cca2, cca3), assets: sample_assets(), record_id: id }
}

fn assert_records_equal(a: &CompiledCountryRecord, b: &CompiledCountryRecord) {
    assert_eq!(a.record_id, b.record_id);
    assert_eq!(a.country.country_name.common, b.country.country_name.common);
    assert_eq!(a.country.country_code2, b.country.country_code2);
    assert_eq!(a.country.country_code3, b.country.country_code3);
    assert_eq!(a.country.top_level_domain, b.country.top_level_domain);
    assert_eq!(a.country.languages, b.country.languages);
    assert_eq!(a.country.neighbours, b.country.neighbours);
    assert_eq!(a.country.area_m2, b.country.area_m2);
    assert_eq!(a.country.emoji, b.country.emoji);
    assert_eq!(a.country.population, b.country.population);
    assert_eq!(a.country.continents, b.country.continents);
    assert_eq!(a.country.flag.url, b.country.flag.url);
    assert_eq!(a.country.flag.description, b.country.flag.description);
    assert_eq!(a.country.capital, b.country.capital);
    assert_eq!(a.country.car.side, b.country.car.side);
    assert_eq!(a.country.dialing_code.root, b.country.dialing_code.root);
    assert_eq!(a.country.dialing_code.suffixes, b.country.dialing_code.suffixes);
    assert_eq!(a.assets.flag_ascii_plain, b.assets.flag_ascii_plain);
    assert_eq!(a.assets.flag_ascii_colored, b.assets.flag_ascii_colored);
    assert_eq!(a.assets.flag_palette, b.assets.flag_palette);
    assert_eq!(a.assets.brightest_color, b.assets.brightest_color);
    for ((ac, acur), (bc, bcur)) in a.country.currencies.iter().zip(b.country.currencies.iter()) {
        assert_eq!(ac, bc);
        assert_eq!(acur.name, bcur.name);
        assert_eq!(acur.symbol, bcur.symbol);
    }
}

#[test]
fn empty_archive_round_trips() {
    let records: Vec<CompiledCountryRecord> = vec![];
    let bytes = encode_archive(&records);
    let back = decode_archive(&bytes).unwrap();
    assert!(back.is_empty());
}

#[test]
fn single_record_round_trips() {
    let records = vec![record("Japan", "JP", "JPN", 0)];
    let bytes = encode_archive(&records);
    let back = decode_archive(&bytes).unwrap();
    assert_eq!(back.len(), 1);
    assert_records_equal(&records[0], &back[0]);
}

#[test]
fn empty_input_compiles_and_loads() {
    let out = compile(vec![]).unwrap();
    let loaded = LoadedArchive::load(&out.blob).unwrap();
    assert!(loaded.all_countries().is_empty());
    assert!(loaded.table.is_empty());
    assert!(loaded.lookup_by_3letter_code("JPN").is_none());
}

#[test]
fn compressed_archive_round_trips() {
    let pairs = vec![
        (sample_country("Japan", "JP", "JPN"), sample_assets()),
        (sample_country("Germany", "DE", "DEU"), sample_assets()),
        (sample_country("Åland", "AX", "ALA"), sample_assets()),
    ];
    let out = compile(pairs).unwrap();
    let loaded = LoadedArchive::load(&out.blob).unwrap();
    assert_eq!(loaded.records.len(), 3);
    for (a, b) in out.records.iter().zip(loaded.records.iter()) {
        assert_records_equal(a, b);
    }
}

#[test]
fn compression_changes_the_bytes() {
    let pairs = vec![(sample_country("Japan", "JP", "JPN"), sample_assets())];
    let out = compile(pairs).unwrap();
    let raw = encode_archive(&out.records);
    assert_ne!(out.blob, raw);
    // The blob is a gzip envelope.
    assert_eq!(&out.blob[0..2], &[0x1f, 0x8b]);
}

#[test]
fn flipping_any_byte_fails_cleanly() {
    let pairs = vec![
        (sample_country("Japan", "JP", "JPN"), sample_assets()),
        (sample_country("Germany", "DE", "DEU"), sample_assets()),
    ];
    let out = compile(pairs).unwrap();
    for i in 0..out.blob.len() {
        let mut corrupted = out.blob.clone();
        corrupted[i] ^= 0x40;
        match LoadedArchive::load(&corrupted) {
            Ok(loaded) => {
                // The flip must not have produced garbage: whatever loaded
                // decodes field-for-field like the original archive.
                assert_eq!(loaded.records.len(), out.records.len());
                for (a, b) in out.records.iter().zip(loaded.records.iter()) {
                    assert_records_equal(a, b);
                }
            },
            Err(_) => {},
        }
    }
}

#[test]
fn decoding_garbage_fails() {
    assert!(decode_archive(&vec![]).is_err());
    assert!(decode_archive(&vec![67, 70]).is_err());
    assert!(decode_archive(&vec![67, 70, 2, 0, 0, 0, 0]).is_err());
    assert!(decode_archive(&vec![67, 70, 1, 1, 0, 0, 0]).is_err());
}

#[test]
fn trailing_bytes_are_rejected() {
    let records = vec![record("Japan", "JP", "JPN", 0)];
    let mut bytes = encode_archive(&records);
    bytes.push(0);
    assert!(decode_archive(&bytes).is_err());
}

#[test]
fn ordering_is_collated_and_ids_are_dense() {
    let pairs = vec![
        (sample_country("Zimbabwe", "ZW", "ZWE"), sample_assets()),
        (sample_country("Åland", "AX", "ALA"), sample_assets()),
        (sample_country("albania", "AL", "ALB"), sample_assets()),
    ];
    let out = compile(pairs).unwrap();
    let names: Vec<&str> = out.records.iter().map(|r| r.country.country_name()).collect();
    // Case-folded, accent-stripped order: Åland before albania before Zimbabwe.
    assert_eq!(names, vec!["Åland", "albania", "Zimbabwe"]);
    for (i, r) in out.records.iter().enumerate() {
        assert_eq!(r.record_id as usize, i);
    }
}

#[test]
fn pipeline_runs_are_identical() {
    let make = || {
        vec![
            (sample_country("Japan", "JP", "JPN"), sample_assets()),
            (sample_country("Germany", "DE", "DEU"), sample_assets()),
        ]
    };
    let a = compile(make()).unwrap();
    let b = compile(make()).unwrap();
    assert_eq!(encode_archive(&a.records), encode_archive(&b.records));
    for (x, y) in a.records.iter().zip(b.records.iter()) {
        assert_records_equal(x, y);
    }
    for (x, y) in a.table.iter().zip(b.table.iter()) {
        assert_eq!(x.ident, y.ident);
        assert_eq!(x.alias2, y.alias2);
        assert_eq!(x.code3, y.code3);
    }
}

#[test]
fn identifiers_are_transliterated_and_disambiguated() {
    let pairs = vec![
        (sample_country("Åland Islands", "AX", "ALA"), sample_assets()),
        (sample_country("Aland islands", "QQ", "QQQ"), sample_assets()),
    ];
    let out = compile(pairs).unwrap();
    let idents: Vec<&str> = out.table.iter().map(|e| e.ident.as_str()).collect();
    assert_eq!(idents[0], "AlandIslands");
    // The second record collapses to the same name and takes its 3-letter
    // code as a suffix.
    assert_eq!(idents[1], "AlandIslands_QQQ");
}

#[test]
fn identifier_collision_fails_the_build() {
    let pairs = vec![
        (sample_country("Atlantis", "QA", "QQQ"), sample_assets()),
        (sample_country("Atlantis", "QB", "QQQ"), sample_assets()),
        (sample_country("Atlantis", "QC", "QQQ"), sample_assets()),
    ];
    match compile(pairs) {
        Err(CompileError::IdentifierCollision) => {},
        _ => panic!("a triple identifier collision must fail the build"),
    }
}

#[test]
fn two_hundred_fifty_fetched_three_dropped() {
    let mut raws: Vec<Country> = Vec::new();
    let mut derived = Vec::new();
    for i in 0..250u32 {
        let a = (b'A' + (i / 26) as u8) as char;
        let b = (b'A' + (i % 26) as u8) as char;
        let cca2: String = [a, b].iter().collect();
        let cca3: String = [a, b, 'X'].iter().collect();
        let name = format!("Country {}{}", a, b);
        raws.push(sample_country(&name, &cca2, &cca3));
        // Three records fail derivation and are dropped, not retried.
        if i == 10 || i == 100 || i == 200 {
            derived.push(None);
        } else {
            derived.push(Some(sample_assets()));
        }
    }
    let pairs = merge_derived(raws, derived);
    assert_eq!(pairs.len(), 247);
    let out = compile(pairs).unwrap();
    assert_eq!(out.records.len(), 247);
    for (i, r) in out.records.iter().enumerate() {
        assert_eq!(r.record_id as usize, i);
    }
    assert_eq!(out.table.len(), 247);
    let loaded = LoadedArchive::load(&out.blob).unwrap();
    // Every surviving record resolves through its 2-letter alias.
    for rec in loaded.all_countries().iter() {
        let code3 = loaded.three_letter_from_2letter(&rec.country.country_code2).unwrap();
        assert_eq!(code3, &rec.country.country_code3);
    }
}

#[test]
fn japan_resolves_by_code_and_alias() {
    let pairs = vec![
        (sample_country("Germany", "DE", "DEU"), sample_assets()),
        (sample_country("Japan", "JP", "JPN"), sample_assets()),
    ];
    let out = compile(pairs).unwrap();
    let loaded = LoadedArchive::load(&out.blob).unwrap();
    let by_code3 = loaded.lookup_by_3letter_code("JPN").unwrap();
    assert_eq!(by_code3.country.country_name(), "Japan");
    // The 2-letter alias parses without regard to case and leads to the same
    // record.
    let code3 = loaded.three_letter_from_2letter("jp").unwrap().clone();
    assert_eq!(code3, "JPN");
    let id = loaded.record_id_from_3letter(&code3).unwrap();
    let by_alias = loaded.identifier_to_record(id);
    assert_eq!(by_alias.record_id, by_code3.record_id);
    assert_eq!(by_alias.country.country_name(), "Japan");
}

#[test]
fn identifier_lookups_are_a_bijection() {
    let pairs = vec![
        (sample_country("Japan", "JP", "JPN"), sample_assets()),
        (sample_country("Germany", "DE", "DEU"), sample_assets()),
        (sample_country("France", "FR", "FRA"), sample_assets()),
    ];
    let out = compile(pairs).unwrap();
    let loaded = LoadedArchive::load(&out.blob).unwrap();
    let n = loaded.all_countries().len() as u32;
    for index in 0..n {
        let id = CountryIdentifier { index };
        let rec = loaded.identifier_to_record(id);
        assert_eq!(rec.record_id, index);
    }
    assert!(loaded.lookup_by_identifier(CountryIdentifier { index: n }).is_none());
    // Identifier names never repeat.
    for i in 0..loaded.table.len() {
        for j in (i + 1)..loaded.table.len() {
            assert_ne!(loaded.table[i].ident, loaded.table[j].ident);
        }
    }
}

#[test]
fn record_accessors_expose_the_assets() {
    let rec = record("Japan", "JP", "JPN", 0);
    assert_eq!(rec.ascii_flag(false), &rec.assets.flag_ascii_plain);
    assert_eq!(rec.ascii_flag(true), &rec.assets.flag_ascii_colored);
    assert_eq!(rec.palette().len(), 2);
    assert_eq!(rec.brightest_color(), Rgb { r: 200, g: 10, b: 10 });
}
