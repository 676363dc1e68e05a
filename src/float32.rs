use vstd::arithmetic::power2::{lemma_pow2_adds, lemma_pow2_pos, lemma_pow2_unfold, pow2};
use vstd::prelude::*;

verus! {

/// The fields of an IEEE 754 single-precision number.
#[derive(Clone, Copy, Debug, PartialEq, Eq, Hash)]
pub struct Single {
    pub sign: bool,
    pub exponent: u32,
    pub fraction: u32,
}

/// `2^23`, the weight of the implicit leading bit.
pub const HIDDEN_BIT: u32 = 0x80_0000;

impl Single {
    /// The fields are in range: an 8-bit exponent and a 23-bit fraction.
    pub open spec fn wf(self) -> bool {
        self.exponent < 256 && self.fraction < HIDDEN_BIT
    }

    /// Not a number: all exponent bits set and a nonzero fraction.
    pub open spec fn is_nan(self) -> bool {
        self.exponent == 255 && self.fraction != 0
    }

    /// An infinity.
    pub open spec fn is_infinite(self) -> bool {
        self.exponent == 255 && self.fraction == 0
    }

    /// A zero of either sign.
    pub open spec fn is_zero(self) -> bool {
        self.exponent == 0 && self.fraction == 0
    }

    /// The significand of a finite number: its magnitude is
    /// `significand * 2^(biased_exponent - 150)`.
    pub open spec fn significand(self) -> nat {
        if self.exponent == 0 {
            self.fraction as nat
        } else {
            (self.fraction + HIDDEN_BIT) as nat
        }
    }

    /// The exponent of a finite number, biased by 150 so that it is never negative.
    pub open spec fn biased_exponent(self) -> nat {
        if self.exponent == 0 {
            1
        } else {
            self.exponent as nat
        }
    }

    /// The magnitude of a finite number times `2^300`, an integer.
    pub open spec fn scaled(self) -> nat {
        self.significand() * pow2(self.biased_exponent() + 150)
    }

    /// The number whose encoding is `bits`.
    pub fn from_bits(bits: u32) -> (r: Single)
        ensures
            r.wf(),
            r.sign == (bits >= 0x8000_0000),
            r.exponent == (bits / HIDDEN_BIT) % 256,
            r.fraction == bits % HIDDEN_BIT,
    {
        Single { sign: bits >= 0x8000_0000, exponent: (bits / HIDDEN_BIT) % 256, fraction: bits % HIDDEN_BIT }
    }

    /// The encoding of this number.
    pub fn to_bits(self) -> (r: u32)
        requires
            self.wf(),
        ensures
            r == (if self.sign {
                0x8000_0000u32 as int
            } else {
                0
            }) + self.exponent * HIDDEN_BIT + self.fraction,
    {
        let high: u32 = if self.sign {
            0x8000_0000
        } else {
            0
        };
        assert(self.exponent * HIDDEN_BIT <= 255 * HIDDEN_BIT) by (nonlinear_arith)
            requires
                self.exponent < 256,
        ;
        high + self.exponent * HIDDEN_BIT + self.fraction
    }
}

/// `r` is the square root of the positive finite `x`, rounded to the nearest
/// representable number: with `q` its significand and `2 * e` its doubled
/// exponent, `q - 1/2 <= sqrt(x) / 2^(e - 150) < q + 1/2`. At the bottom of a
/// binade the number below is only half as far, so there the lower bound is
/// `q - 1/4`.
pub open spec fn sqrt_rounded(x: Single, r: Single) -> bool {
    let q = r.significand() as int;
    let p = pow2(2 * r.exponent as nat);
    &&& r.wf()
    &&& !r.sign
    &&& 1 <= r.exponent <= 254
    &&& if q == HIDDEN_BIT && r.exponent > 1 {
        (4 * q - 1) * (4 * q - 1) * p <= 16 * x.scaled()
    } else {
        (2 * q - 1) * (2 * q - 1) * p <= 4 * x.scaled()
    }
    &&& 4 * x.scaled() < (2 * q + 1) * (2 * q + 1) * p
}

/// `r` is the integer `a` rounded to the nearest representable number, ties to
/// an even significand. At the bottom of a binade the number below is only
/// half as far, so there the lower bound is `q - 1/4` units.
pub open spec fn int_rounded(a: i32, r: Single) -> bool {
    let m = if a < 0 {
        -a
    } else {
        a as int
    };
    let q = r.significand() as int;
    let p = pow2(r.biased_exponent());
    let t = 2 * m * pow2(150);
    &&& r.wf()
    &&& a == 0 ==> r.is_zero() && !r.sign
    &&& a != 0 ==> {
        &&& r.sign == (a < 0)
        &&& 1 <= r.exponent <= 254
        &&& if q == HIDDEN_BIT && r.exponent > 1 {
            (4 * q - 1) * p <= 2 * t
        } else {
            (2 * q - 1) * p <= t
        }
        &&& t <= (2 * q + 1) * p
        &&& (t == (2 * q - 1) * p || t == (2 * q + 1) * p) ==> q % 2 == 0
    }
}

/// The integer square root of `n`.
fn isqrt(n: u64) -> (r: u64)
    requires
        n < 0x1_0000_0000_0000,
    ensures
        r * r <= n < (r + 1) * (r + 1),
        r < 0x100_0000,
{
    let mut lo: u64 = 0;
    let mut hi: u64 = 0x100_0000;
    while hi - lo > 1
        invariant
            lo < hi <= 0x100_0000,
            lo * lo <= n,
            n < hi * hi,
        decreases hi - lo,
    {
        let mid = lo + (hi - lo) / 2;
        assert(mid * mid < 0x1_0000_0000_0000) by (nonlinear_arith)
            requires
                mid < 0x100_0000,
        ;
        if mid * mid <= n {
            lo = mid;
        } else {
            hi = mid;
        }
    }
    assert(hi == lo + 1);
    lo
}

/// The square root of the positive finite `x`, rounded to nearest.
pub fn sqrt_positive(x: Single) -> (r: Single)
    requires
        x.wf(),
        !x.sign,
        x.exponent < 255,
        !x.is_zero(),
    ensures
        sqrt_rounded(x, r),
{
    let mut m: u64 = if x.exponent == 0 {
        x.fraction as u64
    } else {
        (x.fraction + HIDDEN_BIT) as u64
    };
    let mut eb: u32 = if x.exponent == 0 {
        1
    } else {
        x.exponent
    };
    assert(m * pow2(eb as nat + 150) == x.scaled());
    if eb % 2 == 1 {
        let ghost m1 = m;
        let ghost e1 = eb as nat + 150;
        proof {
            lemma_pow2_unfold(e1);
            assert(m1 * pow2(e1) == (2 * m1) * pow2((e1 - 1) as nat)) by (nonlinear_arith)
                requires
                    pow2(e1) == 2 * pow2((e1 - 1) as nat),
            ;
        }
        m = m * 2;
        eb = eb - 1;
    }
    let m0 = m;
    let mut n: u64 = m;
    let mut k: u32 = 0;
    proof {
        vstd::arithmetic::power2::lemma2_to64();
        vstd::arithmetic::power2::lemma2_to64_rest();
    }
    while n < 0x4000_0000_0000
        invariant
            0 < m0 < 0x200_0000,
            n == m0 * pow2(k as nat),
            pow2(k as nat) <= n,
            n < 0x1_0000_0000_0000,
            k % 2 == 0,
            k <= 46,
            pow2(46) == 0x4000_0000_0000,
        decreases 46 - k,
    {
        proof {
            lemma_pow2_unfold(k as nat + 2);
            lemma_pow2_unfold(k as nat + 1);
            assert(m0 * pow2(k as nat + 2) == 4 * (m0 * pow2(k as nat))) by (nonlinear_arith)
                requires
                    pow2(k as nat + 2) == 2 * pow2(k as nat + 1),
                    pow2(k as nat + 1) == 2 * pow2(k as nat),
            ;
            if k >= 46 {
                if k > 46 {
                    vstd::arithmetic::power2::lemma_pow2_strictly_increases(46, k as nat);
                }
                assert(false);
            }
        }
        n = n * 4;
        k = k + 2;
    }
    let root = isqrt(n);
    assert(root >= 0x80_0000) by (nonlinear_arith)
        requires
            n < (root + 1) * (root + 1),
            n >= 0x4000_0000_0000,
    ;
    let rem = n - root * root;
    let mut q: u64 = if rem > root {
        root + 1
    } else {
        root
    };
    let mut exp: u32 = (eb + 150 - k) / 2;
    assert(exp * 2 == eb + 150 - k);
    proof {
        let e = eb as nat + 150;
        lemma_pow2_adds(k as nat, (e - k) as nat);
        assert(x.scaled() == n * pow2(2 * exp as nat)) by (nonlinear_arith)
            requires
                x.scaled() == m0 * pow2(e),
                n == m0 * pow2(k as nat),
                pow2(k as nat) * pow2((e - k) as nat) == pow2(e),
                2 * exp == e - k,
        ;
        lemma_pow2_pos(2 * exp as nat);
        if rem > root {
            assert((2 * q - 1) * (2 * q - 1) <= 4 * n < (2 * q + 1) * (2 * q + 1)) by (nonlinear_arith)
                requires
                    n < (root + 1) * (root + 1),
                    rem == n - root * root,
                    rem > root,
                    q == root + 1,
            ;
        } else {
            assert((2 * q - 1) * (2 * q - 1) <= 4 * n < (2 * q + 1) * (2 * q + 1)) by (nonlinear_arith)
                requires
                    root * root <= n,
                    root >= 1,
                    rem == n - root * root,
                    rem <= root,
                    q == root,
            ;
        }
    }
    if q == 0x100_0000 {
        proof {
            let p = pow2(2 * exp as nat);
            lemma_pow2_unfold(2 * exp as nat + 2);
            lemma_pow2_unfold(2 * exp as nat + 1);
            assert((4 * 0x80_0000 - 1) * (4 * 0x80_0000 - 1) * (4 * p) <= 16 * (n * p)) by (nonlinear_arith)
                requires
                    root == 0xff_ffff,
                    n - root * root > root,
                    p > 0,
            ;
            assert(4 * (n * p) < (2 * 0x80_0000 + 1) * (2 * 0x80_0000 + 1) * (4 * p)) by (nonlinear_arith)
                requires
                    n < 0x1_0000_0000_0000,
                    p > 0,
            ;
        }
        q = 0x80_0000;
        exp = exp + 1;
    } else {
        proof {
            let p = pow2(2 * exp as nat);
            assert((2 * q - 1) * (2 * q - 1) * p <= 4 * (n * p) < (2 * q + 1) * (2 * q + 1) * p) by (nonlinear_arith)
                requires
                    (2 * q - 1) * (2 * q - 1) <= 4 * n < (2 * q + 1) * (2 * q + 1),
                    p > 0,
            ;
            if q == 0x80_0000 {
                assert(q == root);
                assert((4 * q - 1) * (4 * q - 1) * p <= 16 * (n * p)) by (nonlinear_arith)
                    requires
                        q * q <= n,
                        q > 0,
                        p > 0,
                ;
            }
        }
    }
    Single { sign: false, exponent: exp, fraction: (q - 0x80_0000) as u32 }
}

/// The integer `a` rounded to the nearest single-precision number, ties to even.
pub fn int_to_single(a: i32) -> (r: Single)
    ensures
        int_rounded(a, r),
{
    if a == 0 {
        return Single { sign: false, exponent: 0, fraction: 0 };
    }
    let neg = a < 0;
    let m: u64 = if neg {
        (-(a as i64)) as u64
    } else {
        a as u64
    };
    proof {
        vstd::arithmetic::power2::lemma2_to64();
        lemma_pow2_pos(150);
    }
    if m < 0x100_0000 {
        let mut q: u64 = m;
        let mut k: u32 = 0;
        while q < 0x80_0000
            invariant
                0 < m < 0x100_0000,
                q == m * pow2(k as nat),
                0 < q < 0x100_0000,
                k <= 23,
                pow2(0) == 1,
                pow2(23) == 0x80_0000,
                q < 0x80_0000 ==> k < 23,
            decreases 23 - k,
        {
            proof {
                lemma_pow2_unfold(k as nat + 1);
                assert(m * pow2(k as nat + 1) == 2 * (m * pow2(k as nat))) by (nonlinear_arith)
                    requires
                        pow2(k as nat + 1) == 2 * pow2(k as nat),
                ;
                if k + 1 >= 23 {
                    assert(m * pow2(23) >= pow2(23)) by (nonlinear_arith)
                        requires
                            m > 0,
                    ;
                    if k + 1 > 23 {
                        vstd::arithmetic::power2::lemma_pow2_strictly_increases(23, k as nat + 1);
                        assert(m * pow2(k as nat + 1) >= pow2(k as nat + 1)) by (nonlinear_arith)
                            requires
                                m > 0,
                        ;
                    }
                }
            }
            q = q * 2;
            k = k + 1;
        }
        let r = Single { sign: neg, exponent: 150 - k, fraction: (q - 0x80_0000) as u32 };
        proof {
            let e = (150 - k) as nat;
            lemma_pow2_adds(k as nat, e);
            lemma_pow2_pos(e);
            assert(2 * m * pow2(150) == 2 * q * pow2(e)) by (nonlinear_arith)
                requires
                    q == m * pow2(k as nat),
                    pow2(k as nat + e) == pow2(k as nat) * pow2(e),
                    k as nat + e == 150,
            ;
            assert((2 * q - 1) * pow2(e) < 2 * q * pow2(e) < (2 * q + 1) * pow2(e)) by (nonlinear_arith)
                requires
                    pow2(e) > 0,
            ;
            assert((4 * q - 1) * pow2(e) <= 2 * (2 * q * pow2(e))) by (nonlinear_arith)
                requires
                    pow2(e) > 0,
            ;
        }
        r
    } else {
        let mut q: u64 = m;
        let mut rem: u64 = 0;
        let mut scale: u64 = 1;
        let mut s: u32 = 0;
        while q >= 0x100_0000
            invariant
                0x100_0000 <= m <= 0x8000_0000,
                m == q * scale + rem,
                rem < scale,
                scale == pow2(s as nat),
                1 <= scale <= 256,
                s <= 8,
                s == 0 ==> q == m,
                s > 0 ==> q >= 0x80_0000,
                pow2(0) == 1,
                pow2(8) == 256,
            decreases q,
        {
            proof {
                lemma_pow2_unfold(s as nat + 1);
                assert(scale <= 128) by (nonlinear_arith)
                    requires
                        q * scale <= 0x8000_0000,
                        q >= 0x100_0000,
                ;
                if s >= 8 {
                    if s > 8 {
                        vstd::arithmetic::power2::lemma_pow2_strictly_increases(8, s as nat);
                    }
                    assert(false);
                }
                assert(m == (q / 2) * (2 * scale) + ((q % 2) * scale + rem)) by (nonlinear_arith)
                    requires
                        m == q * scale + rem,
                ;
                assert((q % 2) * scale + rem < 2 * scale) by (nonlinear_arith)
                    requires
                        rem < scale,
                        q % 2 <= 1,
                ;
            }
            rem = (q % 2) * scale + rem;
            q = q / 2;
            scale = scale * 2;
            s = s + 1;
        }
        let half = scale / 2;
        proof {
            lemma_pow2_unfold(s as nat);
        }
        let up = rem > half || (rem == half && q % 2 == 1);
        let ghost t = 2 * m * pow2(150);
        let ghost p150 = pow2(150);
        proof {
            lemma_pow2_adds(150, s as nat);
            lemma_pow2_adds(150, s as nat + 1);
            lemma_pow2_unfold(s as nat + 1);
        }
        let r = if up && q + 1 == 0x100_0000 {
            let r = Single { sign: neg, exponent: 151 + s, fraction: 0 };
            proof {
                let p = pow2(151 + s as nat);
                assert(pow2(150 + (s as nat + 1)) == p150 * pow2(s as nat + 1));
                assert(p == 2 * scale * p150) by (nonlinear_arith)
                    requires
                        p == p150 * pow2(s as nat + 1),
                        pow2(s as nat + 1) == 2 * scale,
                ;
                assert((4 * 0x80_0000 - 1) * p <= 2 * t) by (nonlinear_arith)
                    requires
                        p == 2 * scale * p150,
                        t == 2 * m * p150,
                        m == q * scale + rem,
                        q + 1 == 0x100_0000,
                        rem >= half,
                        scale == 2 * half,
                        p150 > 0,
                ;
                assert((2 * 0x80_0000 - 1) * p <= t <= (2 * 0x80_0000 + 1) * p) by (nonlinear_arith)
                    requires
                        p == 2 * scale * p150,
                        t == 2 * m * p150,
                        m == q * scale + rem,
                        q + 1 == 0x100_0000,
                        rem < scale,
                        rem >= half,
                        scale == 2 * half,
                        p150 > 0,
                ;
            }
            r
        } else {
            let q2 = if up {
                q + 1
            } else {
                q
            };
            let r = Single { sign: neg, exponent: 150 + s, fraction: (q2 - 0x80_0000) as u32 };
            proof {
                let p = pow2(150 + s as nat);
                assert(p == scale * p150) by (nonlinear_arith)
                    requires
                        p == p150 * pow2(s as nat),
                        pow2(s as nat) == scale,
                ;
                if up {
                    assert((2 * q2 - 1) * p <= t <= (2 * q2 + 1) * p) by (nonlinear_arith)
                        requires
                            p == scale * p150,
                            t == 2 * m * p150,
                            m == q * scale + rem,
                            q2 == q + 1,
                            rem < scale,
                            rem >= half,
                            scale == 2 * half,
                            p150 > 0,
                    ;
                    assert(t == (2 * q2 - 1) * p ==> rem == half) by (nonlinear_arith)
                        requires
                            p == scale * p150,
                            t == 2 * m * p150,
                            m == q * scale + rem,
                            q2 == q + 1,
                            scale == 2 * half,
                            p150 > 0,
                    ;
                    assert(t != (2 * q2 + 1) * p) by (nonlinear_arith)
                        requires
                            p == scale * p150,
                            t == 2 * m * p150,
                            m == q * scale + rem,
                            q2 == q + 1,
                            rem < scale,
                            p150 > 0,
                    ;
                } else {
                    assert((4 * q2 - 1) * p <= 2 * t) by (nonlinear_arith)
                        requires
                            p == scale * p150,
                            t == 2 * m * p150,
                            m == q * scale + rem,
                            q2 == q,
                            rem >= 0,
                            p150 > 0,
                            scale > 0,
                    ;
                    assert((2 * q2 - 1) * p <= t <= (2 * q2 + 1) * p) by (nonlinear_arith)
                        requires
                            p == scale * p150,
                            t == 2 * m * p150,
                            m == q * scale + rem,
                            q2 == q,
                            rem <= half,
                            scale == 2 * half,
                            p150 > 0,
                    ;
                    assert(t == (2 * q2 + 1) * p ==> rem == half) by (nonlinear_arith)
                        requires
                            p == scale * p150,
                            t == 2 * m * p150,
                            m == q * scale + rem,
                            q2 == q,
                            scale == 2 * half,
                            p150 > 0,
                    ;
                    assert(t != (2 * q2 - 1) * p) by (nonlinear_arith)
                        requires
                            p == scale * p150,
                            t == 2 * m * p150,
                            m == q * scale + rem,
                            q2 == q,
                            scale > 0,
                            p150 > 0,
                    ;
                }
            }
            r
        };
        r
    }
}

} // verus!
