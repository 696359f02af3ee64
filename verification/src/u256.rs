use vstd::prelude::*;
use vstd::std_specs::convert::FromSpecImpl;

verus! {

/// A 256-bit unsigned integer, held as four 64-bit words, most significant first.
///
/// Its view is the number it stands for. Every number below 2^256 has exactly one
/// representation, so equal views mean equal values.
#[derive(Debug, Clone, Copy, PartialEq, Eq, Structural, Hash)]
pub struct U256 {
    pub w3: u64,
    pub w2: u64,
    pub w1: u64,
    pub w0: u64,
}

impl View for U256 {
    type V = nat;

    open spec fn view(&self) -> nat {
        (self.w3 * 0x1_0000_0000_0000_0000_0000_0000_0000_0000_0000_0000_0000_0000
            + self.w2 * 0x1_0000_0000_0000_0000_0000_0000_0000_0000
            + self.w1 * 0x1_0000_0000_0000_0000 + self.w0) as nat
    }
}

impl U256 {
    /// The number zero.
    pub fn zero() -> (r: U256)
        ensures
            r@ == 0,
    {
        U256 { w3: 0, w2: 0, w1: 0, w0: 0 }
    }

    /// Whether `self` is smaller than `other`.
    pub fn less_than(&self, other: &U256) -> (r: bool)
        ensures
            r == (self@ < other@),
    {
        if self.w3 != other.w3 {
            self.w3 < other.w3
        } else if self.w2 != other.w2 {
            self.w2 < other.w2
        } else if self.w1 != other.w1 {
            self.w1 < other.w1
        } else {
            self.w0 < other.w0
        }
    }

    /// The larger of `self` and `other`.
    pub fn larger(self, other: U256) -> (r: U256)
        ensures
            r@ == (if self@ < other@ { other@ } else { self@ }),
    {
        if self.less_than(&other) {
            other
        } else {
            self
        }
    }
}

/// The largest number that fits in 256 bits.
pub open spec fn largest() -> nat {
    (U256 { w3: u64::MAX, w2: u64::MAX, w1: u64::MAX, w0: u64::MAX })@
}

impl U256 {
    /// The product of a 64-bit and a 128-bit number.
    pub fn product(a: u64, b: u128) -> (r: U256)
        ensures
            r@ == a * b,
    {
        let low: u128 = b % 0x1_0000_0000_0000_0000;
        let high: u128 = b / 0x1_0000_0000_0000_0000;
        proof {
            lemma_product_fits(a, low as u64);
            lemma_product_fits(a, high as u64);
        }
        let p: u128 = a as u128 * low;
        let q: u128 = a as u128 * high + p / 0x1_0000_0000_0000_0000;
        assert(a * b == a * low + a * high * 0x1_0000_0000_0000_0000) by (nonlinear_arith)
            requires
                b == low + high * 0x1_0000_0000_0000_0000,
        ;
        U256 {
            w3: 0,
            w2: (q / 0x1_0000_0000_0000_0000) as u64,
            w1: (q % 0x1_0000_0000_0000_0000) as u64,
            w0: (p % 0x1_0000_0000_0000_0000) as u64,
        }
    }

    /// The sum of two numbers, or the largest number where it does not fit.
    pub fn saturating_add(self, other: U256) -> (r: U256)
        ensures
            r@ == (if self@ + other@ > largest() {
                largest()
            } else {
                self@ + other@
            }),
    {
        let s0: u128 = self.w0 as u128 + other.w0 as u128;
        let s1: u128 = self.w1 as u128 + other.w1 as u128 + s0 / 0x1_0000_0000_0000_0000;
        let s2: u128 = self.w2 as u128 + other.w2 as u128 + s1 / 0x1_0000_0000_0000_0000;
        let s3: u128 = self.w3 as u128 + other.w3 as u128 + s2 / 0x1_0000_0000_0000_0000;
        if s3 >= 0x1_0000_0000_0000_0000 {
            U256 { w3: u64::MAX, w2: u64::MAX, w1: u64::MAX, w0: u64::MAX }
        } else {
            U256 {
                w3: s3 as u64,
                w2: (s2 % 0x1_0000_0000_0000_0000) as u64,
                w1: (s1 % 0x1_0000_0000_0000_0000) as u64,
                w0: (s0 % 0x1_0000_0000_0000_0000) as u64,
            }
        }
    }
}

/// The product of two 64-bit numbers leaves room for one more in 128 bits.
proof fn lemma_product_fits(a: u64, b: u64)
    ensures
        0 <= a * b <= 0xffff_ffff_ffff_fffe_0000_0000_0000_0001,
{
    assert(0 <= a * b <= 0xffff_ffff_ffff_ffff * 0xffff_ffff_ffff_ffff) by (nonlinear_arith)
        requires
            0 <= a <= 0xffff_ffff_ffff_ffff,
            0 <= b <= 0xffff_ffff_ffff_ffff,
    ;
}

/// Two values with the same view are the same value.
pub broadcast proof fn lemma_view_injective(a: U256, b: U256)
    ensures
        #[trigger] a@ == #[trigger] b@ ==> a == b,
{
    if a.w3 != b.w3 {
        assert(a.w3 < b.w3 ==> a@ < b@);
        assert(b.w3 < a.w3 ==> b@ < a@);
    } else if a.w2 != b.w2 {
        assert(a.w2 < b.w2 ==> a@ < b@);
        assert(b.w2 < a.w2 ==> b@ < a@);
    } else if a.w1 != b.w1 {
        assert(a.w1 < b.w1 ==> a@ < b@);
        assert(b.w1 < a.w1 ==> b@ < a@);
    }
}

/// The words of a number that fits in 64 bits.
pub open spec fn of_u64(value: u64) -> U256 {
    U256 { w3: 0, w2: 0, w1: 0, w0: value }
}

/// The words of a number that fits in 128 bits.
pub open spec fn of_u128(value: u128) -> U256 {
    U256 {
        w3: 0,
        w2: 0,
        w1: (value / 0x1_0000_0000_0000_0000) as u64,
        w0: (value % 0x1_0000_0000_0000_0000) as u64,
    }
}

impl From<u64> for U256 {
    fn from(value: u64) -> (r: U256) {
        U256 { w3: 0, w2: 0, w1: 0, w0: value }
    }
}

impl FromSpecImpl<u64> for U256 {
    open spec fn obeys_from_spec() -> bool {
        true
    }

    open spec fn from_spec(value: u64) -> U256 {
        of_u64(value)
    }
}

impl From<u128> for U256 {
    fn from(value: u128) -> (r: U256) {
        U256 {
            w3: 0,
            w2: 0,
            w1: (value / 0x1_0000_0000_0000_0000) as u64,
            w0: (value % 0x1_0000_0000_0000_0000) as u64,
        }
    }
}

impl FromSpecImpl<u128> for U256 {
    open spec fn obeys_from_spec() -> bool {
        true
    }

    open spec fn from_spec(value: u128) -> U256 {
        of_u128(value)
    }
}

/// A number taken from a narrower type keeps its value.
pub proof fn law_from_keeps_value(a: u64, b: u128)
    ensures
        of_u64(a)@ == a,
        of_u128(b)@ == b,
{
}

} // verus!
