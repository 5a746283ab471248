//! Volume levels, in tenths of a decibel.
use crate::error::Error;
use vstd::arithmetic::power2::pow2;
use vstd::prelude::*;

verus! {

/// A level in tenths of a decibel.
#[derive(Clone, Copy, Debug, PartialEq, Eq, Structural)]
pub struct Decibels {
    pub tenths: i16,
}

/// Whether the bits are those of a finite single-precision number.
pub open spec fn single_is_finite(bits: u32) -> bool {
    (bits / 0x80_0000) % 256 < 255
}

/// The single-precision number with these bits, without its sign, as a multiple
/// of two to the power of minus 149. That is the smallest such number above
/// zero, so the multiple is always whole.
pub open spec fn single_magnitude(bits: u32) -> int {
    let exponent = (bits / 0x80_0000) % 256;
    let fraction = bits % 0x80_0000;
    if exponent == 0 {
        fraction as int
    } else {
        (0x80_0000 + fraction) * pow2((exponent - 1) as nat)
    }
}

/// The single-precision number with these bits, as a multiple of two to the
/// power of minus 149.
pub open spec fn single_value(bits: u32) -> int {
    if bits < 0x8000_0000 {
        single_magnitude(bits)
    } else {
        -single_magnitude(bits)
    }
}

impl Decibels {
    /// Whether the level is one that the receiver can be set to: from -80 dB to
    /// 18 dB, in half decibels.
    pub open spec fn settable(self) -> bool {
        -800 <= self.tenths <= 180 && self.tenths % 5 == 0
    }

    /// Whether the single-precision number with these bits is this level in
    /// decibels, exactly.
    pub open spec fn is_single(self, bits: u32) -> bool {
        single_is_finite(bits) && 10 * single_value(bits) == self.tenths * pow2(149)
    }

    /// Whether the level is one that the receiver can be set to.
    pub fn is_settable(self) -> (is: bool)
        ensures
            is == self.settable(),
    {
        -800 <= self.tenths && self.tenths <= 180 && (self.tenths + 800) % 5 == 0
    }

    /// The level that a single-precision number of decibels stands for, if it
    /// is one that the receiver can be set to.
    #[verifier::spinoff_prover]
    pub fn from_f32_bits(bits: u32) -> (level: Result<Decibels, Error>)
        ensures
            match level {
                Ok(db) => db.settable() && db.is_single(bits),
                Err(error) => {
                    &&& error == Error::Invalid
                    &&& forall|db: Decibels| db.settable() ==> !#[trigger] db.is_single(bits)
                },
            },
    {
        let exponent: u32 = (bits / 0x80_0000) % 256;
        let fraction: u32 = bits % 0x80_0000;
        if exponent == 0 && fraction == 0 {
            return Ok(Decibels { tenths: 0 });
        }
        if exponent < 126 || exponent > 133 {
            proof {
                lemma_too_fine_or_too_large(bits);
            }
            return Err(Error::Invalid);
        }
        // The number is `whole / unit` half decibels.
        let unit: u32 = power_of_two(149 - exponent);
        let whole: u32 = 0x80_0000 + fraction;
        let halves: u32 = whole / unit;
        let negative: bool = bits >= 0x8000_0000;
        proof {
            vstd::arithmetic::div_mod::lemma_fundamental_div_mod(whole as int, unit as int);
            assert forall|db: Decibels| db.settable() && #[trigger] db.is_single(bits) implies {
                &&& whole % unit == 0
                &&& db.tenths == (if negative { -5 * halves } else { 5 * halves })
            } by {
                let part = db.tenths as int / 5;
                let quotient = if negative { -part } else { part };
                lemma_single_in_halves(bits, db);
                assert(whole == quotient * unit);
                lemma_quotient(whole as int, unit as int, quotient);
                assert(db.tenths == 5 * part);
            }
        }
        if whole % unit != 0 || (negative && halves > 160) || (!negative && halves > 36) {
            return Err(Error::Invalid);
        }
        let tenths: i16 = if negative {
            -5 * (halves as i16)
        } else {
            5 * (halves as i16)
        };
        let db = Decibels { tenths };
        proof {
            assert(whole == halves * unit) by (nonlinear_arith)
                requires
                    whole == unit * halves + 0,
            ;
            assert(tenths as int / 5 == (if negative { -(halves as int) } else { halves as int }));
            lemma_single_in_halves(bits, db);
        }
        Ok(db)
    }

    /// The bits of the single-precision number that is this level in decibels.
    #[verifier::spinoff_prover]
    pub fn to_f32_bits(self) -> (bits: u32)
        requires
            self.settable(),
        ensures
            self.is_single(bits),
            self.tenths == 0 ==> bits == 0,
    {
        if self.tenths == 0 {
            return 0;
        }
        let negative: bool = self.tenths < 0;
        let tenths: i16 = if negative {
            -self.tenths
        } else {
            self.tenths
        };
        let halves: u32 = (tenths as u32) / 5;
        let mut whole: u32 = halves;
        let mut exponent: u32 = 149;
        proof {
            vstd::arithmetic::power2::lemma2_to64();
            assert(halves * pow2(0) == halves) by (nonlinear_arith)
                requires
                    pow2(0) == 1,
            ;
        }
        while whole < 0x80_0000
            invariant
                1 <= halves <= 160,
                1 <= whole < 0x100_0000,
                126 <= exponent <= 149,
                whole == halves * pow2((149 - exponent) as nat),
            decreases 0x100_0000 - whole,
        {
            proof {
                let done = (149 - exponent) as nat;
                vstd::arithmetic::power2::lemma2_to64();
                vstd::arithmetic::power2::lemma_pow2_unfold(done + 1);
                if done >= 23 {
                    if done > 23 {
                        vstd::arithmetic::power2::lemma_pow2_strictly_increases(23, done);
                    }
                    assert(whole >= pow2(done)) by (nonlinear_arith)
                        requires
                            whole == halves * pow2(done),
                            halves >= 1,
                    ;
                }
                assert(2 * whole == halves * pow2(done + 1)) by (nonlinear_arith)
                    requires
                        whole == halves * pow2(done),
                        pow2(done + 1) == 2 * pow2(done),
                ;
            }
            whole = whole * 2;
            exponent = exponent - 1;
        }
        proof {
            let done = (149 - exponent) as nat;
            vstd::arithmetic::power2::lemma2_to64();
            if done < 16 {
                vstd::arithmetic::power2::lemma_pow2_strictly_increases(done, 16);
                assert(whole < 0x80_0000) by (nonlinear_arith)
                    requires
                        whole == halves * pow2(done),
                        pow2(done) <= 0x8000,
                        halves <= 160,
                ;
            }
        }
        let sign: u32 = if negative {
            0x8000_0000
        } else {
            0
        };
        let bits: u32 = sign + exponent * 0x80_0000 + (whole - 0x80_0000);
        proof {
            assert(bits / 0x80_0000 % 256 == exponent);
            assert(bits % 0x80_0000 == whole - 0x80_0000);
            lemma_single_in_halves(bits, self);
            assert(self.tenths as int / 5 == (if negative {
                -(halves as int)
            } else {
                halves as int
            }));
        }
        bits
    }

    /// No single-precision number is two levels.
    pub proof fn law_a_single_is_one_level(bits: u32, a: Decibels, b: Decibels)
        requires
            a.is_single(bits),
            b.is_single(bits),
        ensures
            a == b,
    {
        vstd::arithmetic::power2::lemma_pow2_pos(149);
        assert(a.tenths == b.tenths) by (nonlinear_arith)
            requires
                a.tenths * pow2(149) == b.tenths * pow2(149),
                pow2(149) > 0,
        ;
    }
}

/// A quotient without remainder.
proof fn lemma_quotient(x: int, d: int, q: int)
    requires
        d > 0,
        x == q * d,
    ensures
        x % d == 0,
        x / d == q,
{
    vstd::arithmetic::div_mod::lemma_fundamental_div_mod_converse(x, d, q, 0);
}

/// Numbers of half a decibel or more, and below 128: what they are in half
/// decibels.
#[verifier::spinoff_prover]
proof fn lemma_single_in_halves(bits: u32, db: Decibels)
    requires
        126 <= (bits / 0x80_0000) % 256 <= 133,
        db.settable(),
    ensures
        ({
            let whole = 0x80_0000 + bits % 0x80_0000;
            let unit = pow2((149 - (bits / 0x80_0000) % 256) as nat);
            let halves = db.tenths as int / 5;
            db.is_single(bits) <==> whole == (if bits < 0x8000_0000 { halves } else { -halves })
                * unit
        }),
{
    let exponent = (bits / 0x80_0000) % 256;
    let whole = 0x80_0000 + bits % 0x80_0000;
    let unit = pow2((149 - exponent) as nat) as int;
    let scale = pow2((exponent - 1) as nat) as int;
    let halves = db.tenths as int / 5;
    vstd::arithmetic::power2::lemma_pow2_adds((149 - exponent) as nat, (exponent - 1) as nat);
    vstd::arithmetic::power2::lemma_pow2_unfold(149);
    vstd::arithmetic::power2::lemma_pow2_pos((exponent - 1) as nat);
    assert(pow2(149) == 2 * (unit * scale));
    assert(db.tenths == 5 * halves);
    assert(db.tenths * pow2(149) == 10 * ((halves * unit) * scale)) by (nonlinear_arith)
        requires
            db.tenths == 5 * halves,
            pow2(149) == 2 * (unit * scale),
    ;
    assert((-halves * unit) == -(halves * unit)) by (nonlinear_arith);
    let value: int = if bits < 0x8000_0000 { whole as int } else { -(whole as int) };
    assert(single_value(bits) == value * scale) by (nonlinear_arith)
        requires
            single_value(bits) == (if bits < 0x8000_0000 { whole * scale } else { -(whole * scale) }),
            value == (if bits < 0x8000_0000 { whole as int } else { -(whole as int) }),
    ;
    assert(value * scale == (halves * unit) * scale <==> value == halves * unit) by (nonlinear_arith)
        requires
            scale > 0,
    ;
}

/// Numbers other than zero that are below half a decibel, or are 128 and more,
/// are no level.
#[verifier::spinoff_prover]
proof fn lemma_too_fine_or_too_large(bits: u32)
    requires
        (bits / 0x80_0000) % 256 < 126 || (bits / 0x80_0000) % 256 > 133,
        (bits / 0x80_0000) % 256 != 0 || bits % 0x80_0000 != 0,
    ensures
        forall|db: Decibels| db.settable() ==> !#[trigger] db.is_single(bits),
{
    let exponent = (bits / 0x80_0000) % 256;
    let whole = 0x80_0000 + bits % 0x80_0000;
    let half = pow2(148) as int;
    vstd::arithmetic::power2::lemma2_to64();
    vstd::arithmetic::power2::lemma_pow2_unfold(149);
    vstd::arithmetic::power2::lemma_pow2_pos(148);
    assert forall|db: Decibels| db.settable() implies !#[trigger] db.is_single(bits) by {
        let halves = db.tenths as int / 5;
        assert(db.tenths * pow2(149) == 10 * (halves * half)) by (nonlinear_arith)
            requires
                db.tenths == 5 * halves,
                pow2(149) == 2 * half,
        ;
        let magnitude = single_magnitude(bits);
        if exponent == 0 {
            vstd::arithmetic::power2::lemma_pow2_strictly_increases(23, 148);
        } else if exponent < 126 {
            let scale = pow2((exponent - 1) as nat) as int;
            vstd::arithmetic::power2::lemma_pow2_pos((exponent - 1) as nat);
            vstd::arithmetic::power2::lemma_pow2_adds(24, (exponent - 1) as nat);
            if exponent < 125 {
                vstd::arithmetic::power2::lemma_pow2_strictly_increases(
                    (24 + exponent - 1) as nat,
                    148,
                );
            }
            assert(0 < whole * scale < 0x100_0000 * scale) by (nonlinear_arith)
                requires
                    0 < whole < 0x100_0000,
                    scale > 0,
            ;
        } else if exponent < 255 {
            let scale = pow2((exponent - 1) as nat) as int;
            vstd::arithmetic::power2::lemma_pow2_pos((exponent - 1) as nat);
            if exponent > 134 {
                vstd::arithmetic::power2::lemma_pow2_strictly_increases(
                    133,
                    (exponent - 1) as nat,
                );
            }
            vstd::arithmetic::power2::lemma_pow2_adds(15, 133);
            assert(whole * scale >= 0x80_0000 * scale) by (nonlinear_arith)
                requires
                    whole >= 0x80_0000,
                    scale > 0,
            ;
            assert(magnitude >= 0x80_0000 * pow2(133));
            assert(magnitude >= 256 * half);
        }
        if db.is_single(bits) {
            assert(magnitude == (if bits < 0x8000_0000 { halves * half } else { -(halves * half) }));
            if exponent < 126 {
                assert(0 < magnitude < half);
                assert(false) by (nonlinear_arith)
                    requires
                        0 < magnitude < half,
                        magnitude == halves * half || magnitude == -(halves * half),
                ;
            } else {
                assert(false) by (nonlinear_arith)
                    requires
                        magnitude >= 256 * half,
                        half > 0,
                        -160 <= halves <= 36,
                        magnitude == halves * half || magnitude == -(halves * half),
                ;
            }
        }
    }
}

/// Two to the power of `n`.
fn power_of_two(n: u32) -> (power: u32)
    requires
        n <= 23,
    ensures
        power == pow2(n as nat),
        power > 0,
{
    proof {
        vstd::arithmetic::power2::lemma2_to64();
        vstd::arithmetic::power2::lemma_pow2_strictly_increases(n as nat, 24);
        vstd::arithmetic::power2::lemma_pow2_pos(n as nat);
        vstd::bits::lemma_u32_shl_is_mul(1, n);
    }
    1u32 << n
}

} // verus!
