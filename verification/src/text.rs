//! Small operations on strings and bytes that the other modules share.

use vstd::prelude::*;
use vstd::utf8::encode_utf8;
use vstd::utf8::encode_utf8_decode_utf8;

verus! {

/// The values of a sequence of strings, in the same order.
pub open spec fn texts(names: Seq<String>) -> Seq<Seq<char>> {
    names.map_values(|name: String| name@)
}

/// Whether two byte strings hold the same bytes.
pub fn bytes_eq(a: &[u8], b: &[u8]) -> (r: bool)
    ensures
        r == (a@ == b@),
{
    if a.len() != b.len() {
        return false;
    }
    let mut i: usize = 0;
    while i < a.len()
        invariant
            a@.len() == b@.len(),
            i <= a@.len(),
            forall|j: int| 0 <= j < i ==> a@[j] == b@[j],
        decreases a@.len() - i,
    {
        if a[i] != b[i] {
            return false;
        }
        i += 1;
    }
    assert(a@ =~= b@);
    true
}

/// Two strings with the same UTF-8 encoding are the same string.
pub proof fn lemma_encoding_is_injective(a: Seq<char>, b: Seq<char>)
    requires
        encode_utf8(a) == encode_utf8(b),
    ensures
        a == b,
{
    encode_utf8_decode_utf8(a);
    encode_utf8_decode_utf8(b);
}

/// Whether two strings hold the same characters.
pub fn str_eq(a: &str, b: &str) -> (r: bool)
    ensures
        r == (a@ == b@),
{
    let same = bytes_eq(a.as_bytes(), b.as_bytes());
    proof {
        if same {
            lemma_encoding_is_injective(a@, b@);
        }
    }
    same
}

/// The ASCII code of a decimal digit.
pub open spec fn digit_byte(d: nat) -> u8
    recommends
        d < 10,
{
    (48 + d) as u8
}

/// The decimal numeral of `n` in ASCII, without leading zeros.
pub open spec fn decimal(n: nat) -> Seq<u8>
    decreases n,
{
    if n < 10 {
        seq![digit_byte(n)]
    } else {
        decimal(n / 10).push(digit_byte(n % 10))
    }
}

/// Writes `n` as a decimal numeral in ASCII.
pub fn decimal_text(n: u32) -> (r: Vec<u8>)
    ensures
        r@ == decimal(n as nat),
{
    // The digits come out lowest first; `low` holds them in that order.
    let mut low: Vec<u8> = Vec::new();
    let mut rest: u32 = n;
    while rest >= 10
        invariant
            decimal(n as nat) == decimal(rest as nat) + low@.reverse(),
        decreases rest,
    {
        let d: u8 = (rest % 10) as u8;
        let ghost before = low@;
        low.push(48 + d);
        proof {
            assert(low@.reverse() =~= seq![digit_byte((rest % 10) as nat)] + before.reverse());
            assert(decimal(rest as nat) =~= decimal((rest / 10) as nat) + seq![
                digit_byte((rest % 10) as nat),
            ]);
        }
        rest = rest / 10;
    }
    low.push(48 + (rest as u8));
    let mut r: Vec<u8> = Vec::new();
    let mut i: usize = low.len();
    while i > 0
        invariant
            i <= low@.len(),
            r@ == low@.reverse().take(low@.len() - i),
        decreases i,
    {
        i -= 1;
        r.push(low[i]);
        assert(r@ =~= low@.reverse().take(low@.len() - i));
    }
    proof {
        let last = low@.drop_last();
        assert(low@.reverse() =~= seq![digit_byte(rest as nat)] + last.reverse());
        assert(r@ =~= low@.reverse());
    }
    r
}

} // verus!
