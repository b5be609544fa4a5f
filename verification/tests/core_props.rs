//! Colour metrics, decimal and dialing-code formatting, record validation,
//! the byte-level codec, and the hand-maintained tables.

use countryfetch::cache::Cache;
use countryfetch::cli::{Cli, DataPiece};
use countryfetch::codegen::CountryMethod;
use countryfetch::color::{colorfulness_value, luminance_value, pick_most_colorful, sort_palette, Rgb};
use countryfetch::continent::Continent;
use countryfetch::country::{Car, Country, Currency, Flag, Idd, Name};
use countryfetch::extra::{currency_position, established_date, CurrencyPosition};
use countryfetch::bytes_enc::{push_str, push_u32, push_u64, read_str, read_u32, read_u64};
use countryfetch::strutil::{bytes_eq, str_eq};
use countryfetch::order::bytes_lex_lt;
use countryfetch::textops::{collation_key, pascal_case, transliterate};

fn sample_country(name: &str, cca2: &str, cca3: &str) -> Country {
    Country {
        country_name: Name { common: name.to_string() },
        top_level_domain: vec![".jp".to_string()],
        country_code3: cca3.to_string(),
        country_code2: cca2.to_string(),
        currencies: vec![(
            "JPY".to_string(),
            Currency { name: "Japanese yen".to_string(), symbol: "¥".to_string() },
        )],
        languages: vec![("jpn".to_string(), "Japanese".to_string())],
        neighbours: vec![],
        area_m2: 377_930_000_000,
        emoji: "🇯🇵".to_string(),
        population: 125836021,
        continents: vec!["Asia".to_string()],
        flag: Flag { url: "https://example.test/jp.svg".to_string(), description: None },
        capital: vec!["Tokyo".to_string()],
        car: Car { side: "left".to_string() },
        dialing_code: Idd { root: "+8".to_string(), suffixes: vec!["1".to_string()] },
    }
}

#[test]
fn colorfulness_of_black_is_zero() {
    assert_eq!(colorfulness_value(&Rgb { r: 0, g: 0, b: 0 }), 0);
}

#[test]
fn colorfulness_of_gray_is_zero() {
    for k in [1u8, 7, 128, 255] {
        assert_eq!(colorfulness_value(&Rgb { r: k, g: k, b: k }), 0);
    }
}

#[test]
fn colorfulness_of_pure_red() {
    // (max + min) * (max - min) / max = 255 * 255 / 255.
    assert_eq!(colorfulness_value(&Rgb { r: 255, g: 0, b: 0 }), 255);
}

#[test]
fn luminance_uses_bt709_weights() {
    assert_eq!(luminance_value(&Rgb { r: 1, g: 0, b: 0 }), 2126);
    assert_eq!(luminance_value(&Rgb { r: 0, g: 1, b: 0 }), 7152);
    assert_eq!(luminance_value(&Rgb { r: 0, g: 0, b: 1 }), 722);
    assert_eq!(luminance_value(&Rgb { r: 255, g: 255, b: 255 }), 2_550_000);
}

#[test]
fn palette_sorts_ascending_by_luminance() {
    let white = Rgb { r: 255, g: 255, b: 255 };
    let black = Rgb { r: 0, g: 0, b: 0 };
    let green = Rgb { r: 0, g: 200, b: 0 };
    let sorted = sort_palette(vec![white, green, black]);
    assert_eq!(sorted, vec![black, green, white]);
}

#[test]
fn most_colorful_beats_gray() {
    let palette = vec![Rgb { r: 128, g: 128, b: 128 }, Rgb { r: 200, g: 10, b: 10 }];
    let best = pick_most_colorful(&palette);
    assert_eq!(best, Rgb { r: 200, g: 10, b: 10 });
}

#[test]
fn dialing_code_joins_up_to_three_suffixes() {
    let mut c = sample_country("Japan", "JP", "JPN");
    c.dialing_code = Idd {
        root: "+3".to_string(),
        suffixes: vec!["7".to_string(), "8".to_string()],
    };
    assert_eq!(c.dialing_code(), "+37, +38");
}

#[test]
fn dialing_code_counts_the_rest() {
    let mut c = sample_country("Japan", "JP", "JPN");
    c.dialing_code = Idd {
        root: "+1".to_string(),
        suffixes: vec![
            "201".to_string(),
            "202".to_string(),
            "203".to_string(),
            "204".to_string(),
            "205".to_string(),
        ],
    };
    assert_eq!(c.dialing_code(), "+1201, +1202, +1203 (+2 more...)");
}

#[test]
fn dialing_code_of_no_suffixes_is_empty() {
    let mut c = sample_country("Japan", "JP", "JPN");
    c.dialing_code = Idd { root: "+81".to_string(), suffixes: vec![] };
    assert_eq!(c.dialing_code(), "");
}

#[test]
fn validate_accepts_well_formed_records() {
    assert!(sample_country("Japan", "JP", "JPN").validate());
}

#[test]
fn validate_rejects_bad_codes_and_empty_names() {
    assert!(!sample_country("", "JP", "JPN").validate());
    assert!(!sample_country("Japan", "J1", "JPN").validate());
    assert!(!sample_country("Japan", "JP", "JPNX").validate());
    assert!(!sample_country("Japan", "JPX", "JPN").validate());
}

#[test]
fn transliteration_strips_accents() {
    assert_eq!(transliterate("Åland Islands"), "Aland Islands");
    assert_eq!(transliterate("Côte d'Ivoire"), "Cote d'Ivoire");
}

#[test]
fn pascal_case_capitalises_words() {
    assert_eq!(pascal_case("united states"), "UnitedStates");
    assert_eq!(pascal_case("Aland Islands"), "AlandIslands");
}

#[test]
fn collation_key_folds_case_and_accents() {
    assert_eq!(collation_key("Åland"), collation_key("aland"));
    assert!(collation_key("Åland") < collation_key("apple"));
    assert!(collation_key("apple") < collation_key("Zebra"));
}

#[test]
fn str_eq_and_bytes_eq_decide_equality() {
    assert!(str_eq("naïve", "naïve"));
    assert!(!str_eq("naïve", "naive"));
    assert!(bytes_eq(&vec![1u8, 2], &vec![1u8, 2]));
    assert!(!bytes_eq(&vec![1u8, 2], &vec![1u8, 3]));
}

#[test]
fn integers_round_trip_through_the_codec() {
    let mut buf: Vec<u8> = Vec::new();
    push_u32(&mut buf, 0xDEAD_BEEF);
    push_u64(&mut buf, 0x0123_4567_89AB_CDEF);
    let (a, p) = read_u32(&buf, 0).unwrap();
    let (b, q) = read_u64(&buf, p).unwrap();
    assert_eq!(a, 0xDEAD_BEEF);
    assert_eq!(b, 0x0123_4567_89AB_CDEF);
    assert_eq!(q, buf.len());
    assert_eq!(&buf[0..4], &[0xEF, 0xBE, 0xAD, 0xDE]);
}

#[test]
fn strings_round_trip_through_the_codec() {
    let mut buf: Vec<u8> = Vec::new();
    push_str(&mut buf, "Côte d'Ivoire");
    let (s, end) = read_str(&buf, 0).unwrap();
    assert_eq!(s, "Côte d'Ivoire");
    assert_eq!(end, buf.len());
}

#[test]
fn truncated_strings_fail_to_read() {
    let mut buf: Vec<u8> = Vec::new();
    push_str(&mut buf, "hello");
    buf.truncate(buf.len() - 1);
    assert!(read_str(&buf, 0).is_none());
    assert!(read_u32(&vec![1u8, 2], 0).is_none());
}

#[test]
fn established_dates_come_from_the_table() {
    assert_eq!(established_date("JP"), Some("February 11, 660 BC"));
    assert_eq!(established_date("DE"), Some("October 3, 1990"));
    assert_eq!(established_date("ZZ"), None);
}

#[test]
fn currency_positions_split_left_and_right() {
    assert_eq!(currency_position("US"), CurrencyPosition::Left);
    assert_eq!(currency_position("JP"), CurrencyPosition::Left);
    assert_eq!(currency_position("DE"), CurrencyPosition::Right);
    assert_eq!(currency_position("FR"), CurrencyPosition::Right);
}

#[test]
fn continents_have_emoji() {
    assert_eq!(Continent::Asia.emoji(), "🐼");
    assert_eq!(Continent::all_continents().len(), 7);
}

#[test]
fn country_method_shapes_match_the_accessors() {
    assert_eq!(CountryMethod::CountryName.param(), ("self", "&Self"));
    assert_eq!(CountryMethod::FromStr.param(), ("s", "&str"));
    assert_eq!(CountryMethod::FromStr.end_part(), "            _ => None\n        }\n    }\n");
    assert_eq!(CountryMethod::Palette.end_part(), "        }\n    }\n");
    assert_eq!(CountryMethod::Population.return_type(), "u64");
    assert_eq!(
        CountryMethod::Currencies.return_type(),
        "&'static [(&'static str, &'static str, &'static str)]"
    );
}

#[test]
fn grid_validator_demands_forty_by_seventeen() {
    let good: Vec<String> = (0..17).map(|_| "x".repeat(40)).collect();
    assert!(countryfetch::grid::validate_grid(&good.join("\n")));
    let short: Vec<String> = (0..16).map(|_| "x".repeat(40)).collect();
    assert!(!countryfetch::grid::validate_grid(&short.join("\n")));
    let wide: Vec<String> = (0..17).map(|_| "x".repeat(41)).collect();
    assert!(!countryfetch::grid::validate_grid(&wide.join("\n")));
    // Colour escapes occupy no visible cell.
    let cell = "\u{1b}[38;2;1;2;3mx";
    let colored: Vec<String> = (0..17).map(|_| cell.repeat(40)).collect();
    assert!(countryfetch::grid::validate_grid(&colored.join("\n")));
}

#[test]
fn byte_strings_order_lexicographically() {
    assert!(bytes_lex_lt(&vec![1, 2], &vec![1, 3]));
    assert!(bytes_lex_lt(&vec![1, 2], &vec![1, 2, 0]));
    assert!(!bytes_lex_lt(&vec![1, 2], &vec![1, 2]));
    assert!(!bytes_lex_lt(&vec![2], &vec![1, 9]));
}

#[test]
fn cache_freshness_follows_the_window() {
    let c = Cache { modified_time: 1000, country_code: "JP".to_string() };
    assert!(c.is_outdated(1000 + 1799));
    assert!(!c.is_outdated(1000 + 1800));
    // A clock that went backwards counts as fresh.
    assert!(c.is_outdated(500));
}

#[test]
fn cli_defaults_select_nothing() {
    let cli = Cli::new();
    assert!(cli.country.is_none());
    assert!(!cli.all_countries);
    assert!(!cli.list_countries);
    assert!(cli.select.is_empty());
    let _ = DataPiece::Palette;
}
