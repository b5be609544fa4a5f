//! The raw country record fetched from the country data source, and the
//! compiled record that joins it with its derived flag assets and its dense
//! archive position.

use vstd::prelude::*;

use crate::color::Rgb;
use crate::strutil::{append_decimal, dec_chars};

verus! {

use vstd::string::StringSliceAdditionalSpecFns;

/// Common name of a country.
#[derive(Clone, Debug)]
pub struct Name {
    pub common: String,
}

/// International dialing code of a country: a shared root and per-region
/// suffixes.
#[derive(Clone, Debug)]
pub struct Idd {
    pub root: String,
    pub suffixes: Vec<String>,
}

/// Which side of the road the country drives on.
#[derive(Clone, Debug)]
pub struct Car {
    pub side: String,
}

/// Where a country's flag image lives, and its optional description.
#[derive(Clone, Debug)]
pub struct Flag {
    pub url: String,
    pub description: Option<String>,
}

/// One currency of a country.
#[derive(Clone, Debug)]
pub struct Currency {
    pub name: String,
    pub symbol: String,
}

/// Source-of-truth facts of one country as fetched, before any derivation.
#[derive(Clone, Debug)]
pub struct Country {
    pub country_name: Name,
    pub top_level_domain: Vec<String>,
    pub country_code3: String,
    pub country_code2: String,
    /// Currency code paired with the currency's name and symbol.
    pub currencies: Vec<(String, Currency)>,
    /// Language code paired with the language's name.
    pub languages: Vec<(String, String)>,
    /// Neighbouring countries, as 3-letter codes.
    pub neighbours: Vec<String>,
    /// Area in whole square metres.
    pub area_m2: u64,
    pub emoji: String,
    pub population: u64,
    pub continents: Vec<String>,
    pub flag: Flag,
    pub capital: Vec<String>,
    pub car: Car,
    pub dialing_code: Idd,
}

/// Mathematical view of a raw country record: every text field as a char
/// sequence.
pub ghost struct CountryView {
    pub name: Seq<char>,
    pub tld: Seq<Seq<char>>,
    pub cca3: Seq<char>,
    pub cca2: Seq<char>,
    pub currencies: Seq<(Seq<char>, Seq<char>, Seq<char>)>,
    pub languages: Seq<(Seq<char>, Seq<char>)>,
    pub neighbours: Seq<Seq<char>>,
    pub area_m2: u64,
    pub emoji: Seq<char>,
    pub population: u64,
    pub continents: Seq<Seq<char>>,
    pub flag_url: Seq<char>,
    pub flag_description: Option<Seq<char>>,
    pub capital: Seq<Seq<char>>,
    pub driving_side: Seq<char>,
    pub idd_root: Seq<char>,
    pub idd_suffixes: Seq<Seq<char>>,
}

pub open spec fn views_of_strings(v: Seq<String>) -> Seq<Seq<char>> {
    v.map_values(|s: String| s@)
}

pub open spec fn views_of_currencies(v: Seq<(String, Currency)>) -> Seq<
    (Seq<char>, Seq<char>, Seq<char>),
> {
    v.map_values(|e: (String, Currency)| (e.0@, e.1.name@, e.1.symbol@))
}

pub open spec fn views_of_languages(v: Seq<(String, String)>) -> Seq<(Seq<char>, Seq<char>)> {
    v.map_values(|e: (String, String)| (e.0@, e.1@))
}

pub open spec fn view_of_opt_string(v: Option<String>) -> Option<Seq<char>> {
    match v {
        None => None,
        Some(s) => Some(s@),
    }
}

impl View for Country {
    type V = CountryView;

    open spec fn view(&self) -> CountryView {
        CountryView {
            name: self.country_name.common@,
            tld: views_of_strings(self.top_level_domain@),
            cca3: self.country_code3@,
            cca2: self.country_code2@,
            currencies: views_of_currencies(self.currencies@),
            languages: views_of_languages(self.languages@),
            neighbours: views_of_strings(self.neighbours@),
            area_m2: self.area_m2,
            emoji: self.emoji@,
            population: self.population,
            continents: views_of_strings(self.continents@),
            flag_url: self.flag.url@,
            flag_description: view_of_opt_string(self.flag.description),
            capital: views_of_strings(self.capital@),
            driving_side: self.car.side@,
            idd_root: self.dialing_code.root@,
            idd_suffixes: views_of_strings(self.dialing_code.suffixes@),
        }
    }
}

/// An ASCII letter byte.
pub open spec fn letter_byte(b: u8) -> bool {
    (65 <= b <= 90) || (97 <= b <= 122)
}

/// A country code of exactly `n` ASCII letters, judged on its UTF-8 bytes.
pub open spec fn code_wf(s: Seq<char>, n: int) -> bool {
    let b = vstd::utf8::encode_utf8(s);
    b.len() == n && forall|i: int| 0 <= i < b.len() ==> letter_byte(#[trigger] b[i])
}

/// The invariant of a raw record: non-empty name, 2-letter and 3-letter codes
/// of exactly 2 and 3 ASCII letters.
pub open spec fn country_wf(c: CountryView) -> bool {
    &&& c.name.len() > 0
    &&& code_wf(c.cca2, 2)
    &&& code_wf(c.cca3, 3)
}

/// A country code of exactly `n` ASCII letters.
fn check_code(s: &str, n: usize) -> (r: bool)
    ensures
        r == code_wf(s@, n as int),
{
    let b = s.as_bytes_vec();
    proof {
        assert(b@ == s.spec_bytes());
        assert(s.spec_bytes() == vstd::utf8::encode_utf8(s@));
    }
    if b.len() != n {
        return false;
    }
    let mut i: usize = 0;
    while i < b.len()
        invariant
            0 <= i <= b@.len(),
            b@ == vstd::utf8::encode_utf8(s@),
            forall|m: int| 0 <= m < i ==> letter_byte(#[trigger] b@[m]),
        decreases b@.len() - i,
    {
        let x = b[i];
        if !((65 <= x && x <= 90) || (97 <= x && x <= 122)) {
            proof {
                assert(!letter_byte(vstd::utf8::encode_utf8(s@)[i as int]));
            }
            return false;
        }
        i = i + 1;
    }
    true
}

impl Country {
    /// Whether this record satisfies the raw-record invariant: the source
    /// excludes records that fail it rather than compiling them.
    pub fn validate(&self) -> (r: bool)
        ensures
            r == country_wf(self@),
    {
        if self.country_name.common.as_str().is_empty() {
            proof {
                assert(vstd::utf8::encode_utf8(self.country_name.common@).len() == 0);
            }
            return false;
        }
        proof {
            if self.country_name.common@.len() == 0 {
                assert(vstd::utf8::encode_utf8(self.country_name.common@).len() == 0);
            }
        }
        check_code(self.country_code2.as_str(), 2) && check_code(self.country_code3.as_str(), 3)
    }

    /// The country's common name.
    pub fn country_name(&self) -> (r: &str)
        ensures
            r@ == self@.name,
    {
        self.country_name.common.as_str()
    }

    /// Which side of the road this country drives on.
    pub fn driving_side(&self) -> (r: &str)
        ensures
            r@ == self@.driving_side,
    {
        self.car.side.as_str()
    }

    /// Human-readable dialing codes: at most three root-plus-suffix codes
    /// separated by commas, then a note counting the codes left out.
    pub fn dialing_code(&self) -> (r: String)
        ensures
            r@ == dialing_code_text(self@.idd_root, self@.idd_suffixes),
    {
        let root = &self.dialing_code.root;
        let suffixes = &self.dialing_code.suffixes;
        let shown: usize = if suffixes.len() < 3 {
            suffixes.len()
        } else {
            3
        };
        let mut out = String::new();
        let mut i: usize = 0;
        proof {
            assert(out@ =~= joined_codes(self@.idd_root, self@.idd_suffixes, 0));
        }
        while i < shown
            invariant
                0 <= i <= shown,
                shown <= suffixes@.len(),
                suffixes@.len() == self@.idd_suffixes.len(),
                root@ == self@.idd_root,
                forall|m: int| 0 <= m < suffixes@.len() ==> #[trigger] suffixes@[m]@
                    == self@.idd_suffixes[m],
                out@ == joined_codes(self@.idd_root, self@.idd_suffixes, i as int),
            decreases shown - i,
        {
            if i > 0 {
                out.append(", ");
            }
            out.append(root.as_str());
            out.append(suffixes[i].as_str());
            i = i + 1;
            proof {
                if i == 1 {
                    assert(out@ =~= joined_codes(self@.idd_root, self@.idd_suffixes, 1));
                } else {
                    assert(out@ =~= joined_codes(self@.idd_root, self@.idd_suffixes, i as int));
                }
            }
        }
        if suffixes.len() > 3 {
            out.append(" (+");
            append_decimal(&mut out, (suffixes.len() - 3) as u64);
            out.append(" more...)");
            proof {
                assert(out@ =~= dialing_code_text(self@.idd_root, self@.idd_suffixes));
            }
        } else {
            proof {
                assert(out@ =~= dialing_code_text(self@.idd_root, self@.idd_suffixes));
            }
        }
        out
    }
}

/// The first `k` dialing codes, each the root followed by one suffix, joined
/// with a comma and a space.
pub open spec fn joined_codes(root: Seq<char>, sfx: Seq<Seq<char>>, k: int) -> Seq<char>
    decreases k,
{
    if k <= 0 {
        Seq::empty()
    } else if k == 1 {
        root + sfx[0]
    } else {
        joined_codes(root, sfx, k - 1) + ", "@ + root + sfx[k - 1]
    }
}

/// The dialing-code text: up to three codes, then a count of those left out.
pub open spec fn dialing_code_text(root: Seq<char>, sfx: Seq<Seq<char>>) -> Seq<char> {
    let shown = if sfx.len() < 3 {
        sfx.len() as int
    } else {
        3
    };
    if sfx.len() <= 3 {
        joined_codes(root, sfx, shown)
    } else {
        joined_codes(root, sfx, shown) + " (+"@ + dec_chars((sfx.len() - 3) as nat) + " more...)"@
    }
}

/// Flag assets derived from one country's flag image: both fixed-size ASCII
/// grids, the luminance-ordered palette, and the most distinctive colour.
#[derive(Clone, Debug)]
pub struct RenderedFlagAssets {
    pub flag_ascii_plain: String,
    pub flag_ascii_colored: String,
    pub flag_palette: Vec<Rgb>,
    pub brightest_color: Rgb,
}

/// Mathematical view of derived flag assets.
pub ghost struct AssetsView {
    pub plain: Seq<char>,
    pub colored: Seq<char>,
    pub palette: Seq<Rgb>,
    pub brightest: Rgb,
}

impl View for RenderedFlagAssets {
    type V = AssetsView;

    open spec fn view(&self) -> AssetsView {
        AssetsView {
            plain: self.flag_ascii_plain@,
            colored: self.flag_ascii_colored@,
            palette: self.flag_palette@,
            brightest: self.brightest_color,
        }
    }
}

/// A raw record joined with its derived assets and its dense zero-based
/// position in one archive generation.
#[derive(Clone, Debug)]
pub struct CompiledCountryRecord {
    pub country: Country,
    pub assets: RenderedFlagAssets,
    pub record_id: u32,
}

/// Mathematical view of a compiled record.
pub ghost struct RecordView {
    pub country: CountryView,
    pub assets: AssetsView,
    pub record_id: u32,
}

impl View for CompiledCountryRecord {
    type V = RecordView;

    open spec fn view(&self) -> RecordView {
        RecordView { country: self.country@, assets: self.assets@, record_id: self.record_id }
    }
}

/// Views of a sequence of compiled records.
pub open spec fn record_views(s: Seq<CompiledCountryRecord>) -> Seq<RecordView> {
    s.map_values(|r: CompiledCountryRecord| r@)
}

impl CompiledCountryRecord {
    /// The fixed-size ASCII flag, colorised with true-colour escapes or
    /// plain.
    pub fn ascii_flag(&self, colored: bool) -> (r: &String)
        ensures
            colored ==> r@ == self@.assets.colored,
            !colored ==> r@ == self@.assets.plain,
    {
        if colored {
            &self.assets.flag_ascii_colored
        } else {
            &self.assets.flag_ascii_plain
        }
    }

    /// The flag's palette, ascending by perceived luminance.
    pub fn palette(&self) -> (r: &Vec<Rgb>)
        ensures
            r@ == self@.assets.palette,
    {
        &self.assets.flag_palette
    }

    /// The flag's most distinctive colour.
    pub fn brightest_color(&self) -> (r: Rgb)
        ensures
            r == self@.assets.brightest,
    {
        self.assets.brightest_color
    }
}

} // verus!
