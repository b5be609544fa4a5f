//! Options of the presentation layer: which countries to show and which
//! pieces of data to print.  Argument parsing and printing stay with the
//! outer program; this is the parsed shape they exchange.

use vstd::prelude::*;

verus! {

/// One piece of country data the presentation layer can show.
#[derive(Clone, Copy, PartialEq, Eq, Structural, Debug)]
pub enum DataPiece {
    Area,
    Flag,
    Emoji,
    Continent,
    Population,
    Tlds,
    Languages,
    Currencies,
    Neighbours,
    EstablishmentDate,
    IsoCode,
    DrivingSide,
    Capital,
    DialingCode,
    Palette,
    Color,
}

/// The presentation layer's parsed options.
#[derive(Clone, Debug)]
pub struct Cli {
    /// Identifiers or 2-letter codes of the countries to show; empty means
    /// detect the country.
    pub country: Option<Vec<String>>,
    /// Show every country.
    pub all_countries: bool,
    /// List the accepted country names and aliases.
    pub list_countries: bool,
    /// The pieces of data to show; empty means all of them.
    pub select: Vec<DataPiece>,
}

impl Cli {
    /// Options that show everything about the detected country.
    pub fn new() -> (r: Cli)
        ensures
            r.country is None,
            !r.all_countries,
            !r.list_countries,
            r.select@.len() == 0,
    {
        Cli { country: None, all_countries: false, list_countries: false, select: Vec::new() }
    }
}

} // verus!
