//! Signal levels.
//!
//! Every signal that travels between modules is one single-precision
//! IEEE-754 number per sample. This library never calculates with samples in
//! floating point; it moves them, compares them against thresholds, and puts
//! out a few levels that it can name exactly. A [`Voltage`] is therefore held
//! as the number's bit pattern, and everything here is defined on the
//! pattern so that it agrees with the numbers themselves.

use vstd::prelude::*;
use vstd::arithmetic::power2::{pow2, lemma2_to64, lemma_pow2_unfold};

verus! {

/// One sample, as the bit pattern of a single-precision number.
pub type Voltage = u32;

/// Silence, and the level of an idle gate: the pattern of `0.0`.
pub const ZERO_VOLTS: Voltage = 0;

/// The peak level of audio signals (`5.0`; audio swings between -5 V and 5 V).
pub const AUDIO_VOLTS: Voltage = 0x40a0_0000;

/// The peak level of control signals (`10.0`; control voltages span 0 V to 10 V).
pub const CV_VOLTS: Voltage = 0x4120_0000;

/// The level at which a gate counts as high (`2.0`).
pub const GATE_THRESHOLD_VOLTS: Voltage = 0x4000_0000;

/// The level below which a raised trigger is armed again (`0.1`).
pub const GATE_RESET_VOLTS: Voltage = 0x3dcc_cccd;

/// The frequency in Hz that a pitch voltage of zero stands for (`261.6256`,
/// C4), as the pattern of a single-precision number.
pub const V_OCT_F0: u32 = 0x4382_d014;

/// The sign bit of a pattern.
pub const SIGN_BIT: Voltage = 0x8000_0000;

/// The magnitude of an infinity; every larger magnitude is not a number.
pub const INFINITY_MAGNITUDE: Voltage = 0x7f80_0000;

/// The pattern without its sign bit.
pub open spec fn magnitude(v: Voltage) -> int {
    if v >= SIGN_BIT {
        v - SIGN_BIT
    } else {
        v as int
    }
}

/// Whether the pattern stands for no number at all.
pub open spec fn is_nan(v: Voltage) -> bool {
    magnitude(v) > INFINITY_MAGNITUDE
}

/// The place of a number on the number line: patterns of numbers are ordered
/// by magnitude, downwards where the sign bit is set, and the two zeros share
/// a place.
pub open spec fn rank(v: Voltage) -> int {
    if v >= SIGN_BIT {
        -magnitude(v)
    } else {
        magnitude(v)
    }
}

/// `v >= w` on the numbers: false as soon as either is not a number.
pub open spec fn reaches(v: Voltage, w: Voltage) -> bool {
    !is_nan(v) && !is_nan(w) && rank(v) >= rank(w)
}

/// `v < w` on the numbers: false as soon as either is not a number.
pub open spec fn falls_short(v: Voltage, w: Voltage) -> bool {
    !is_nan(v) && !is_nan(w) && rank(v) < rank(w)
}

/// Tells whether the level `v` is at or above the level `w`.
pub fn at_least(v: Voltage, w: Voltage) -> (r: bool)
    ensures
        r == reaches(v, w),
{
    let mv: u32 = if v >= SIGN_BIT { v - SIGN_BIT } else { v };
    let mw: u32 = if w >= SIGN_BIT { w - SIGN_BIT } else { w };
    if mv > INFINITY_MAGNITUDE || mw > INFINITY_MAGNITUDE {
        false
    } else if v >= SIGN_BIT {
        if w >= SIGN_BIT {
            mv <= mw
        } else {
            mv == 0 && mw == 0
        }
    } else {
        w >= SIGN_BIT || mv >= mw
    }
}

/// Tells whether the level `v` is strictly under the level `w`.
pub fn below(v: Voltage, w: Voltage) -> (r: bool)
    ensures
        r == falls_short(v, w),
{
    let mv: u32 = if v >= SIGN_BIT { v - SIGN_BIT } else { v };
    let mw: u32 = if w >= SIGN_BIT { w - SIGN_BIT } else { w };
    if mv > INFINITY_MAGNITUDE || mw > INFINITY_MAGNITUDE {
        false
    } else if v >= SIGN_BIT {
        if w >= SIGN_BIT {
            mv > mw
        } else {
            mv != 0 || mw != 0
        }
    } else {
        w < SIGN_BIT && mv < mw
    }
}

/// The exponent field of a pattern.
pub open spec fn exponent(v: Voltage) -> int {
    magnitude(v) / 0x80_0000
}

/// The significand of a pattern whose exponent field is not zero: the
/// fraction field with the hidden bit in front of it.
pub open spec fn significand(v: Voltage) -> int {
    0x80_0000 + magnitude(v) % 0x80_0000
}

/// Whether `v` is the pattern of the number nearest to `twelfths / 12`.
///
/// A pattern with exponent field `e` between 1 and 254 and significand `m`
/// stands for `m * 2^(e - 150)`, negated where the sign bit is set, and its
/// neighbours lie `2^(e - 150)` away, the one below half as far where `m` is
/// the least significand. With everything multiplied by `12 * 2^(150 - e)`,
/// the pattern is the nearest one when `12 * m` is within 6 of
/// `size * 2^(150 - e)`, with an even `m` where it is exactly 6 away, and
/// no more than 3 above it where `m` is the least significand.
pub open spec fn is_pitch(v: Voltage, twelfths: int) -> bool {
    let size = if twelfths < 0 { -twelfths } else { twelfths };
    let e = exponent(v);
    let m = significand(v);
    let target = size * pow2((150 - e) as nat);
    if twelfths == 0 {
        v == ZERO_VOLTS
    } else {
        &&& (v >= SIGN_BIT) == (twelfths < 0)
        &&& 1 <= e <= 150
        &&& -6 <= 12 * m - target <= 6
        &&& (12 * m - target == 6 || 12 * m - target == -6) ==> m % 2 == 0
        &&& m == 0x80_0000 ==> 12 * m - target <= 3
    }
}

/// The pitch voltage of a MIDI note, at one volt per octave: the number
/// nearest to `(midi_note - 60) / 12`, so that middle C is at zero volts and
/// each semitone is a twelfth of a volt.
pub fn midi_to_voltage(midi_note: u8) -> (v: Voltage)
    ensures
        is_pitch(v, midi_note - 60),
        !is_nan(v),
{
    if midi_note == 60 {
        return ZERO_VOLTS;
    }
    let size: u64 = if midi_note < 60 { (60 - midi_note) as u64 } else { (midi_note - 60) as u64 };
    let mut shift: u32 = 27;
    let ghost mut scale: int = 0x800_0000;
    let mut target: u64 = size * 0x800_0000;
    proof {
        lemma2_to64();
    }
    while target >= 0xc00_0000
        invariant
            1 <= size <= 195,
            19 <= shift <= 27,
            scale == pow2(shift as nat),
            target == size * scale,
            2 * target >= 0xc00_0000,
        decreases shift,
    {
        proof {
            lemma2_to64();
            lemma_pow2_unfold(shift as nat);
            let half = pow2((shift - 1) as nat) as int;
            assert(target == 2 * (size * half)) by (nonlinear_arith)
                requires
                    target == size * scale,
                    scale == 2 * half,
            ;
            if shift == 19 {
                assert(target <= 195 * 0x8_0000) by (nonlinear_arith)
                    requires
                        target == size * scale,
                        size <= 195,
                        scale == 0x8_0000,
                ;
            }
            scale = half;
        }
        shift = shift - 1;
        target = target / 2;
    }
    let mut m: u64 = target / 12;
    let rest: u64 = target % 12;
    if rest > 6 || (rest == 6 && m % 2 == 1) {
        m = m + 1;
    }
    if m == 0x100_0000 {
        proof {
            lemma_pow2_unfold(shift as nat);
            let half = pow2((shift - 1) as nat) as int;
            assert(target == 2 * (size * half)) by (nonlinear_arith)
                requires
                    target == size * scale,
                    scale == 2 * half,
            ;
        }
        m = 0x80_0000;
        shift = shift - 1;
    }
    let e: u32 = 150 - shift;
    let sign: u32 = if midi_note < 60 { SIGN_BIT } else { 0 };
    let v: u32 = sign + e * 0x80_0000 + (m as u32 - 0x80_0000);
    proof {
        assert(magnitude(v) == e * 0x80_0000 + (m - 0x80_0000));
        assert(exponent(v) == e);
        assert(significand(v) == m);
        let goal = size * pow2((150 - e) as nat);
        assert(1 <= e <= 150);
        assert((v >= SIGN_BIT) == (midi_note < 60));
        assert(-6 <= 12 * m - goal <= 6);
        assert((12 * m - goal == 6 || 12 * m - goal == -6) ==> m % 2 == 0);
        assert(m == 0x80_0000 ==> 12 * m - goal <= 3);
    }
    v
}

/// Only one pattern is the pattern of the number nearest to `twelfths / 12`.
pub proof fn lemma_pitch_is_unique(v: Voltage, w: Voltage, twelfths: int)
    requires
        is_pitch(v, twelfths),
        is_pitch(w, twelfths),
    ensures
        v == w,
{
    if twelfths != 0 {
        if exponent(v) <= exponent(w) {
            lemma_pitch_fixes_magnitude(v, w, twelfths);
        } else {
            lemma_pitch_fixes_magnitude(w, v, twelfths);
        }
    }
}

/// Two patterns of the number nearest to `twelfths / 12` have the same
/// exponent field and the same significand.
proof fn lemma_pitch_fixes_magnitude(v: Voltage, w: Voltage, twelfths: int)
    requires
        twelfths != 0,
        is_pitch(v, twelfths),
        is_pitch(w, twelfths),
        exponent(v) <= exponent(w),
    ensures
        v == w,
{
    let size = if twelfths < 0 { -twelfths } else { twelfths };
    let e = exponent(v);
    let f = exponent(w);
    let m = significand(v);
    let n = significand(w);
    let fine = pow2((150 - e) as nat) as int;
    let coarse = pow2((150 - f) as nat) as int;
    if e < f {
        let gap = (f - e) as nat;
        vstd::arithmetic::power2::lemma_pow2_adds((150 - f) as nat, gap);
        lemma_pow2_unfold(gap);
        let rest = pow2((gap - 1) as nat) as int;
        vstd::arithmetic::power2::lemma_pow2_pos((gap - 1) as nat);
        assert(fine == coarse * (2 * rest));
        assert(size * fine == 2 * rest * (size * coarse)) by (nonlinear_arith)
            requires
                fine == coarse * (2 * rest),
        ;
        let low = size * coarse;
        assert(low >= 12 * 0x80_0000 - 6);
        assert(size * fine <= 12 * 0xff_ffff + 6);
        if rest >= 2 {
            assert(2 * rest * low >= 4 * low) by (nonlinear_arith)
                requires
                    rest >= 2,
                    low >= 0,
            ;
        } else {
            assert(rest == 1);
            assert(2 * rest * low == 2 * low);
            assert(n == 0x80_0000);
            assert(m == 0xff_ffff);
        }
    } else {
        assert(fine == coarse);
        assert(m == n);
        assert(magnitude(v) == e * 0x80_0000 + (m - 0x80_0000));
        assert(magnitude(w) == f * 0x80_0000 + (n - 0x80_0000));
    }
}

/// Among numbers, each level is either at or above another or strictly under
/// it, never both.
pub proof fn lemma_levels_are_ordered(v: Voltage, w: Voltage)
    requires
        !is_nan(v),
        !is_nan(w),
    ensures
        reaches(v, w) != falls_short(v, w),
{
}

} // verus!
