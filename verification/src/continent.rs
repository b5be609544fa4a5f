//! The continents, with the emoji shown beside each in listings.

use vstd::prelude::*;

verus! {

/// A continent a country can lie on.
#[derive(Eq, PartialEq, Structural, Copy, Clone, Debug)]
pub enum Continent {
    NorthAmerica,
    SouthAmerica,
    Europe,
    Asia,
    Africa,
    Oceania,
    Antartica,
}

/// The emoji shown beside a continent.
pub open spec fn continent_emoji(c: Continent) -> Seq<char> {
    match c {
        Continent::NorthAmerica => "🗽"@,
        Continent::SouthAmerica => "🌵"@,
        Continent::Europe => "🏰"@,
        Continent::Asia => "🐼"@,
        Continent::Africa => "🦒"@,
        Continent::Oceania => "🗿"@,
        Continent::Antartica => "🧊"@,
    }
}

impl Continent {
    /// The emoji shown beside this continent.
    pub fn emoji(self: &Self) -> (r: &'static str)
        ensures
            r@ == continent_emoji(*self),
    {
        match self {
            Self::NorthAmerica => "🗽",
            Self::SouthAmerica => "🌵",
            Self::Europe => "🏰",
            Self::Asia => "🐼",
            Self::Africa => "🦒",
            Self::Oceania => "🗿",
            Self::Antartica => "🧊",
        }
    }

    /// Every continent, in listing order.
    pub fn all_continents() -> (r: Vec<Continent>)
        ensures
            r@ == seq![
                Continent::NorthAmerica,
                Continent::SouthAmerica,
                Continent::Europe,
                Continent::Asia,
                Continent::Africa,
                Continent::Oceania,
                Continent::Antartica,
            ],
    {
        let mut v: Vec<Continent> = Vec::new();
        v.push(Continent::NorthAmerica);
        v.push(Continent::SouthAmerica);
        v.push(Continent::Europe);
        v.push(Continent::Asia);
        v.push(Continent::Africa);
        v.push(Continent::Oceania);
        v.push(Continent::Antartica);
        proof {
            assert(v@ =~= seq![
                Continent::NorthAmerica,
                Continent::SouthAmerica,
                Continent::Europe,
                Continent::Asia,
                Continent::Africa,
                Continent::Oceania,
                Continent::Antartica,
            ]);
        }
        v
    }
}

} // verus!
