//! Text operations that lean on outside crates: transliteration to plain
//! ASCII and capitalised-word identifier casing, plus the collation key the
//! orderer sorts by.

use heck::ToPascalCase;
use vstd::prelude::*;

use crate::strutil::{lower_bytes, to_lower_bytes};

verus! {

use vstd::string::StringSliceAdditionalSpecFns;

/// What `deunicode` yields on a string: a function of the characters alone.
pub uninterp spec fn translit_of(s: Seq<char>) -> Seq<char>;

/// Relies on `deunicode::deunicode`: transliterates text to a plain-ASCII
/// form; the result depends on the characters alone.
#[verifier::external_body]
pub fn transliterate(s: &str) -> (r: String)
    ensures
        r@ == translit_of(s@),
{
    deunicode::deunicode(s)
}

/// What `heck`'s PascalCase conversion yields on a string: a function of the
/// characters alone.
pub uninterp spec fn pascal_of(s: Seq<char>) -> Seq<char>;

/// Relies on `heck::ToPascalCase`: converts text to the capitalised-word
/// identifier convention; the result depends on the characters alone.
#[verifier::external_body]
pub fn pascal_case(s: &str) -> (r: String)
    ensures
        r@ == pascal_of(s@),
{
    s.to_pascal_case()
}

/// The collation key of a country name: the UTF-8 bytes of its
/// transliterated, ASCII-case-folded form.  Transliteration strips accents,
/// and the byte fold ignores case, so the induced order is case-insensitive
/// and accent-tolerant; ties are broken by fetch order elsewhere.
pub open spec fn collation_key_of(name: Seq<char>) -> Seq<u8> {
    lower_bytes(vstd::utf8::encode_utf8(translit_of(name)))
}

/// Compute the collation key of a country name.
pub fn collation_key(name: &str) -> (r: Vec<u8>)
    ensures
        r@ == collation_key_of(name@),
{
    let t = transliterate(name);
    let ts = t.as_str();
    let b = ts.as_bytes_vec();
    proof {
        assert(b@ == ts.spec_bytes());
    }
    to_lower_bytes(&b)
}

} // verus!
