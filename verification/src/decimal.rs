use crate::u256::U256;
use vstd::prelude::*;
use vstd::string::*;

verus! {

/// The character of a decimal digit.
pub open spec fn digit(d: nat) -> char {
    (48 + d) as char
}

/// A number written in decimal, without leading zeros.
pub open spec fn decimal(n: nat) -> Seq<char>
    decreases n,
{
    if n < 10 {
        seq![digit(n)]
    } else {
        decimal(n / 10).push(digit(n % 10))
    }
}

/// Returns the text of a decimal digit.
fn digit_text(d: u128) -> (r: &'static str)
    requires
        d < 10,
    ensures
        r@ == seq![digit(d as nat)],
{
    proof {
        reveal_strlit("0");
        reveal_strlit("1");
        reveal_strlit("2");
        reveal_strlit("3");
        reveal_strlit("4");
        reveal_strlit("5");
        reveal_strlit("6");
        reveal_strlit("7");
        reveal_strlit("8");
        reveal_strlit("9");
    }
    let r = if d == 0 {
        "0"
    } else if d == 1 {
        "1"
    } else if d == 2 {
        "2"
    } else if d == 3 {
        "3"
    } else if d == 4 {
        "4"
    } else if d == 5 {
        "5"
    } else if d == 6 {
        "6"
    } else if d == 7 {
        "7"
    } else if d == 8 {
        "8"
    } else {
        "9"
    };
    assert(r@ =~= seq![digit(d as nat)]);
    r
}

/// Writes a number in decimal.
pub fn decimal_text(n: u128) -> (r: String)
    ensures
        r@ == decimal(n as nat),
    decreases n,
{
    if n < 10 {
        digit_text(n).to_string()
    } else {
        let mut r = decimal_text(n / 10);
        r.append(digit_text(n % 10));
        assert(r@ =~= decimal(n as nat));
        r
    }
}

/// `alloy_primitives::U256` written with its `Display`: the number in decimal, without
/// leading zeros.
#[verifier::external_body]
pub(crate) fn u256_decimal(value: &U256) -> (r: String)
    ensures
        r@ == decimal(value@),
{
    alloy_primitives::U256::from_limbs([value.w0, value.w1, value.w2, value.w3]).to_string()
}

/// Division of `alloy_primitives::U256`, which rounds down and refuses a zero divisor.
#[verifier::external_body]
pub(crate) fn u256_div(dividend: &U256, divisor: &U256) -> (r: U256)
    requires
        divisor@ != 0,
    ensures
        r@ == dividend@ / divisor@,
{
    let quotient = alloy_primitives::U256::from_limbs(
        [dividend.w0, dividend.w1, dividend.w2, dividend.w3],
    ) / alloy_primitives::U256::from_limbs([divisor.w0, divisor.w1, divisor.w2, divisor.w3]);
    let words = quotient.into_limbs();
    U256 { w3: words[3], w2: words[2], w1: words[1], w0: words[0] }
}

} // verus!
