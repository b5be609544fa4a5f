//! Shapes of the generated per-country accessors: for each accessor, its
//! parameter, its return type, and the text that closes its match.  The
//! accessors themselves are realised by the identifier table rather than by
//! emitted source.

use vstd::prelude::*;

verus! {

/// One generated per-country accessor.
#[derive(Clone, Copy, PartialEq, Eq, Structural, Debug)]
pub enum CountryMethod {
    Description,
    CountryName,
    CountryCode3,
    CountryCode2,
    TopLevelDomain,
    Currencies,
    Languages,
    Neighbours,
    Capital,
    Palette,
    AreaKm,
    DialingCode,
    DrivingSide,
    Emoji,
    BrightestColor,
    Population,
    Continents,
    Flag,
    FlagNoColor,
    FromStr,
    FromCountryCode,
    CountryCode3FromCountryCode2,
}

/// Whether an accessor reads a record (taking the country itself) rather
/// than parsing a code string.
pub open spec fn takes_self(m: CountryMethod) -> bool {
    !(m == CountryMethod::FromStr || m == CountryMethod::FromCountryCode || m
        == CountryMethod::CountryCode3FromCountryCode2)
}

impl CountryMethod {
    /// The accessor's parameter: its name and its type.
    pub fn param(&self) -> (r: (&'static str, &'static str))
        ensures
            takes_self(*self) ==> r.0@ == "self"@ && r.1@ == "&Self"@,
            !takes_self(*self) ==> r.0@ == "s"@ && r.1@ == "&str"@,
    {
        match self {
            CountryMethod::FromStr
            | CountryMethod::FromCountryCode
            | CountryMethod::CountryCode3FromCountryCode2 => ("s", "&str"),
            _ => ("self", "&Self"),
        }
    }

    /// The text that closes the accessor's match: code-parsing accessors
    /// fall through to nothing.
    pub fn end_part(&self) -> (r: &'static str)
        ensures
            takes_self(*self) ==> r@ == "        }\n    }\n"@,
            !takes_self(*self) ==> r@ == "            _ => None\n        }\n    }\n"@,
    {
        match self {
            CountryMethod::FromStr
            | CountryMethod::FromCountryCode
            | CountryMethod::CountryCode3FromCountryCode2 => {
                "            _ => None\n        }\n    }\n"
            },
            _ => "        }\n    }\n",
        }
    }

    /// The accessor's return type.
    pub fn return_type(&self) -> (r: &'static str)
        ensures
            r@ == return_type_text(*self),
    {
        match self {
            CountryMethod::Description => "Option<&'static str>",
            CountryMethod::CountryName => "&'static str",
            CountryMethod::CountryCode3 => "&'static str",
            CountryMethod::CountryCode2 => "&'static str",
            CountryMethod::TopLevelDomain => "&'static [&'static str]",
            CountryMethod::Currencies => "&'static [(&'static str, &'static str, &'static str)]",
            CountryMethod::Languages => "&'static [(&'static str, &'static str)]",
            CountryMethod::Neighbours => "&'static [&'static str]",
            CountryMethod::Capital => "&'static [&'static str]",
            CountryMethod::Palette => "&'static [(u8, u8, u8)]",
            CountryMethod::AreaKm => "f64",
            CountryMethod::DialingCode => "&'static str",
            CountryMethod::DrivingSide => "&'static str",
            CountryMethod::Flag => "&'static str",
            CountryMethod::FlagNoColor => "&'static str",
            CountryMethod::Emoji => "&'static str",
            CountryMethod::BrightestColor => "(u8, u8, u8)",
            CountryMethod::Population => "u64",
            CountryMethod::Continents => "&'static [&'static str]",
            CountryMethod::FromStr => "Option<Self>",
            CountryMethod::FromCountryCode => "Option<Self>",
            CountryMethod::CountryCode3FromCountryCode2 => "Option<&'static str>",
        }
    }
}

/// The return type of each generated accessor, as text.
pub open spec fn return_type_text(m: CountryMethod) -> Seq<char> {
    match m {
        CountryMethod::Description => "Option<&'static str>"@,
        CountryMethod::CountryName => "&'static str"@,
        CountryMethod::CountryCode3 => "&'static str"@,
        CountryMethod::CountryCode2 => "&'static str"@,
        CountryMethod::TopLevelDomain => "&'static [&'static str]"@,
        CountryMethod::Currencies => "&'static [(&'static str, &'static str, &'static str)]"@,
        CountryMethod::Languages => "&'static [(&'static str, &'static str)]"@,
        CountryMethod::Neighbours => "&'static [&'static str]"@,
        CountryMethod::Capital => "&'static [&'static str]"@,
        CountryMethod::Palette => "&'static [(u8, u8, u8)]"@,
        CountryMethod::AreaKm => "f64"@,
        CountryMethod::DialingCode => "&'static str"@,
        CountryMethod::DrivingSide => "&'static str"@,
        CountryMethod::Flag => "&'static str"@,
        CountryMethod::FlagNoColor => "&'static str"@,
        CountryMethod::Emoji => "&'static str"@,
        CountryMethod::BrightestColor => "(u8, u8, u8)"@,
        CountryMethod::Population => "u64"@,
        CountryMethod::Continents => "&'static [&'static str]"@,
        CountryMethod::FromStr => "Option<Self>"@,
        CountryMethod::FromCountryCode => "Option<Self>"@,
        CountryMethod::CountryCode3FromCountryCode2 => "Option<&'static str>"@,
    }
}

} // verus!
