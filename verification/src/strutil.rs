//! Small verified text utilities: byte-level string equality, ASCII case
//! folding, decimal rendering of integers, and the one trusted conversion
//! from raw bytes back to a `String`.

use vstd::prelude::*;

verus! {

broadcast use vstd::string::group_string_axioms;

/// Relies on std's `String::from_utf8`: it returns `Ok` exactly when the
/// bytes are valid UTF-8, and the returned string holds those bytes decoded.
#[verifier::external_body]
pub fn bytes_to_string(bytes: Vec<u8>) -> (r: Result<String, ()>)
    ensures
        match r {
            Ok(s) => vstd::utf8::valid_utf8(bytes@) && s@ == vstd::utf8::decode_utf8(bytes@),
            Err(_) => !vstd::utf8::valid_utf8(bytes@),
        },
{
    match String::from_utf8(bytes) {
        Ok(s) => Ok(s),
        Err(_) => Err(()),
    }
}

/// Bytewise equality of two byte vectors.
pub fn bytes_eq(a: &Vec<u8>, b: &Vec<u8>) -> (r: bool)
    ensures
        r == (a@ == b@),
{
    if a.len() != b.len() {
        return false;
    }
    let mut i: usize = 0;
    while i < a.len()
        invariant
            0 <= i <= a@.len(),
            a@.len() == b@.len(),
            forall|m: int| 0 <= m < i ==> a@[m] == b@[m],
        decreases a@.len() - i,
    {
        if a[i] != b[i] {
            return false;
        }
        i = i + 1;
    }
    proof {
        assert(a@ =~= b@);
    }
    true
}

/// Equality of two string slices, decided on their UTF-8 bytes.
pub fn str_eq(a: &str, b: &str) -> (r: bool)
    ensures
        r == (a@ == b@),
{
    let ab = a.as_bytes_vec();
    let bb = b.as_bytes_vec();
    let r = bytes_eq(&ab, &bb);
    proof {
        broadcast use vstd::utf8::encode_utf8_decode_utf8;

        if ab@ == bb@ {
            assert(vstd::utf8::decode_utf8(vstd::utf8::encode_utf8(a@)) == a@);
            assert(vstd::utf8::decode_utf8(vstd::utf8::encode_utf8(b@)) == b@);
        }
    }
    r
}

/// An upper-case ASCII letter folded to lower case; any other byte unchanged.
pub open spec fn lower_byte(b: u8) -> u8 {
    if 65 <= b <= 90 {
        (b + 32) as u8
    } else {
        b
    }
}

/// Bytewise ASCII case folding.
pub open spec fn lower_bytes(s: Seq<u8>) -> Seq<u8> {
    s.map_values(|b: u8| lower_byte(b))
}

/// Fold upper-case ASCII letters of a byte string to lower case.
pub fn to_lower_bytes(v: &Vec<u8>) -> (r: Vec<u8>)
    ensures
        r@ == lower_bytes(v@),
{
    let mut out: Vec<u8> = Vec::new();
    let mut i: usize = 0;
    while i < v.len()
        invariant
            0 <= i <= v@.len(),
            out@.len() == i,
            forall|m: int| 0 <= m < i ==> out@[m] == lower_byte(#[trigger] v@[m]),
        decreases v@.len() - i,
    {
        let b = v[i];
        if 65 <= b && b <= 90 {
            out.push(b + 32);
        } else {
            out.push(b);
        }
        i = i + 1;
    }
    proof {
        assert(out@ =~= lower_bytes(v@));
    }
    out
}

/// The decimal digit character for a value below ten.
pub open spec fn digit_char(d: int) -> char {
    if d == 0 {
        '0'
    } else if d == 1 {
        '1'
    } else if d == 2 {
        '2'
    } else if d == 3 {
        '3'
    } else if d == 4 {
        '4'
    } else if d == 5 {
        '5'
    } else if d == 6 {
        '6'
    } else if d == 7 {
        '7'
    } else if d == 8 {
        '8'
    } else {
        '9'
    }
}

/// Decimal rendering of a natural number, most significant digit first.
pub open spec fn dec_chars(n: nat) -> Seq<char>
    decreases n,
{
    if n < 10 {
        seq![digit_char(n as int)]
    } else {
        dec_chars(n / 10).push(digit_char((n % 10) as int))
    }
}

/// The one-character string for a decimal digit.
fn digit_str(d: u64) -> (r: &'static str)
    requires
        d < 10,
    ensures
        r@ =~= seq![digit_char(d as int)],
{
    proof {
        reveal_strlit("0");
        reveal_strlit("1");
        reveal_strlit("2");
        reveal_strlit("3");
        reveal_strlit("4");
        reveal_strlit("5");
        reveal_strlit("6");
        reveal_strlit("7");
        reveal_strlit("8");
        reveal_strlit("9");
    }
    if d == 0 {
        "0"
    } else if d == 1 {
        "1"
    } else if d == 2 {
        "2"
    } else if d == 3 {
        "3"
    } else if d == 4 {
        "4"
    } else if d == 5 {
        "5"
    } else if d == 6 {
        "6"
    } else if d == 7 {
        "7"
    } else if d == 8 {
        "8"
    } else {
        "9"
    }
}

/// Append the decimal rendering of `n` to `out`.
pub fn append_decimal(out: &mut String, n: u64)
    ensures
        final(out)@ == old(out)@ + dec_chars(n as nat),
{
    // Digit values of `n`, least significant first.
    let mut rev: Vec<u64> = Vec::new();
    let mut m: u64 = n;
    if m == 0 {
        out.append(digit_str(0));
        proof {
            assert(old(out)@ + dec_chars(0) =~= out@);
        }
        return ;
    }
    proof {
        assert(dec_chars(n as nat) =~= dec_chars(m as nat) + digits_of(rev@));
    }
    while m > 0
        invariant
            m > 0 ==> dec_chars(n as nat) == dec_chars(m as nat) + digits_of(rev@),
            m == 0 ==> dec_chars(n as nat) == digits_of(rev@),
            forall|k: int| 0 <= k < rev@.len() ==> #[trigger] rev@[k] < 10,
        decreases m,
    {
        let d = m % 10;
        let ghost m_old = m as nat;
        let ghost rev_old = rev@;
        m = m / 10;
        rev.push(d);
        proof {
            assert(rev@.drop_last() =~= rev_old);
            assert(digits_of(rev@) == seq![digit_char(d as int)] + digits_of(rev_old));
            if m > 0 {
                assert(m_old >= 10);
                assert(dec_chars(m_old) == dec_chars(m as nat).push(digit_char(d as int)));
                assert(dec_chars(m as nat) + digits_of(rev@) =~= dec_chars(m_old) + digits_of(
                    rev_old,
                ));
            } else {
                assert(m_old < 10);
                assert(dec_chars(m_old) =~= seq![digit_char(d as int)]);
                assert(digits_of(rev@) =~= dec_chars(m_old) + digits_of(rev_old));
            }
        }
    }
    // Append most significant digit first.
    let mut i: usize = rev.len();
    proof {
        assert(rev@.skip(rev@.len() as int) =~= Seq::<u64>::empty());
        assert(out@ =~= old(out)@ + digits_of(rev@.skip(rev@.len() as int)));
    }
    while i > 0
        invariant
            0 <= i <= rev@.len(),
            dec_chars(n as nat) == digits_of(rev@),
            forall|k: int| 0 <= k < rev@.len() ==> #[trigger] rev@[k] < 10,
            out@ == old(out)@ + digits_of(rev@.skip(i as int)),
        decreases i,
    {
        i = i - 1;
        out.append(digit_str(rev[i]));
        proof {
            lemma_digits_of_unfold_front(rev@.skip(i as int));
            assert(rev@.skip(i as int).drop_first() =~= rev@.skip(i + 1));
            assert(rev@.skip(i as int)[0] == rev@[i as int]);
            assert(out@ =~= old(out)@ + digits_of(rev@.skip(i as int)));
        }
    }
    proof {
        assert(rev@.skip(0) =~= rev@);
    }
}

/// Digit characters for a sequence of digit values, least significant first
/// in the input, most significant first in the output.
spec fn digits_of(rev: Seq<u64>) -> Seq<char>
    decreases rev.len(),
{
    if rev.len() == 0 {
        Seq::empty()
    } else {
        seq![digit_char(rev.last() as int)] + digits_of(rev.drop_last())
    }
}

proof fn lemma_digits_of_unfold_front(rev: Seq<u64>)
    requires
        rev.len() > 0,
    ensures
        digits_of(rev) == digits_of(rev.drop_first()).push(digit_char(rev[0] as int)),
    decreases rev.len(),
{
    if rev.len() == 1 {
        assert(digits_of(rev.drop_last()) =~= Seq::<char>::empty());
        assert(digits_of(rev.drop_first()) =~= Seq::<char>::empty());
        assert(digits_of(rev) =~= digits_of(rev.drop_first()).push(digit_char(rev[0] as int)));
    } else {
        lemma_digits_of_unfold_front(rev.drop_last());
        assert(rev.drop_last().drop_first() =~= rev.drop_first().drop_last());
        assert(rev.drop_first().last() == rev.last());
        assert(digits_of(rev) =~= digits_of(rev.drop_first()).push(digit_char(rev[0] as int)));
    }
}

} // verus!
