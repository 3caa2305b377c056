//! The manipulation policies and their exact model.
//!
//! Manipulations act on chroma channels normalized into the unit interval,
//! so they are defined independently of the measured gamut. The two
//! built-in policies are the chroma inversion `x -> 1 - x` and the phase
//! rotation `x -> (x + shift) mod 1`. This module states and proves their
//! algebra — inversion is an involution, rotations compose additively and
//! shifts summing to a whole turn cancel — over exact rationals: a channel
//! is a numerator below a fixed positive denominator.

use crate::color::Ratio;
use vstd::arithmetic::div_mod::lemma_add_mod_noop;
use vstd::arithmetic::div_mod::lemma_add_mod_noop_right;
use vstd::arithmetic::div_mod::lemma_small_mod;
use vstd::prelude::*;

verus! {

/// A manipulation policy recognized by the pipeline.
#[derive(Copy, Clone, Debug, PartialEq, Eq, Structural)]
pub enum Manipulation {
    /// True chroma inversion in normalized space: `a' = 1 - a, b' = 1 - b`.
    Invert,
    /// Phase rotation controlled by a sweep percentage in the unit
    /// interval: `a' = (a + 100 * percentage) mod 1, b' = (b + percentage)
    /// mod 1`.
    ParameterizedRotate { percentage: Ratio },
}

/// A normalized chroma pair: each channel an exact rational in `[0, 1]`.
#[derive(Copy, Clone, Debug, PartialEq, Eq, Structural)]
pub struct NormChroma {
    pub a: Ratio,
    pub b: Ratio,
}

impl NormChroma {
    /// Both channels well formed and within the unit interval.
    pub open spec fn wf(self) -> bool {
        &&& self.a.wf() && self.a.in_unit()
        &&& self.b.wf() && self.b.in_unit()
    }
}

/// The inversion of one normalized channel: `1 - x`, exactly.
pub open spec fn spec_invert_channel(x: Ratio) -> Ratio {
    Ratio { num: (x.den - x.num) as u64, den: x.den }
}

/// The chroma inversion `a' = 1 - a, b' = 1 - b` on a normalized pair.
pub fn invert(c: NormChroma) -> (r: NormChroma)
    requires
        c.wf(),
    ensures
        r.a == spec_invert_channel(c.a),
        r.b == spec_invert_channel(c.b),
        r.wf(),
{
    NormChroma {
        a: Ratio { num: c.a.den - c.a.num, den: c.a.den },
        b: Ratio { num: c.b.den - c.b.num, den: c.b.den },
    }
}

/// Inversion is an involution: applied twice to any normalized channel it
/// returns the original exactly.
pub proof fn lemma_invert_involution(x: Ratio)
    requires
        x.wf(),
        x.in_unit(),
    ensures
        spec_invert_channel(spec_invert_channel(x)) == x,
{
}

/// One rotation step of a normalized channel held as a numerator over the
/// fixed denominator `d`: the exact form of `(x + shift) mod 1` for
/// `x = n / d` and `shift = s / d`.
pub fn rotate_step(n: u64, s: u64, d: u64) -> (r: u64)
    requires
        0 < d,
        n < d,
        s < d,
        d <= 0x7fff_ffff_ffff_ffff,
    ensures
        r == (n + s) % (d as int),
        r < d,
{
    (n + s) % d
}

/// Rotations compose additively: rotating by `s1` and then by `s2` lands
/// exactly where one rotation by `s1 + s2` does.
pub proof fn lemma_rotate_composes(n: u64, s1: u64, s2: u64, d: u64)
    requires
        0 < d,
        n < d,
        s2 < d,
    ensures
        ((n + s1) % (d as int) + s2) % (d as int) == (n + s1 + s2) % (d as int),
{
    lemma_add_mod_noop((n + s1) as int, s2 as int, d as int);
    lemma_small_mod(s2 as nat, d as nat);
}

/// Rotation periodicity: two rotations whose shifts sum to a whole number
/// of turns return the original channel exactly.
pub proof fn lemma_rotate_periodic(n: u64, s1: u64, s2: u64, d: u64)
    requires
        0 < d,
        n < d,
        s2 < d,
        (s1 + s2) % (d as int) == 0,
    ensures
        ((n + s1) % (d as int) + s2) % (d as int) == n,
{
    lemma_rotate_composes(n, s1, s2, d);
    lemma_add_mod_noop(n as int, (s1 + s2) as int, d as int);
    lemma_small_mod(n as nat, d as nat);
    lemma_small_mod(0nat, d as nat);
}

/// The parameterized rotation on a normalized pair held over the fixed
/// denominator `d`: the `a` channel advances by one hundred times the
/// sweep shift, the `b` channel by the shift itself, both modulo one.
pub fn rotate_pair(a: u64, b: u64, d: u64, s: u64) -> (r: (u64, u64))
    requires
        0 < d,
        a < d,
        b < d,
        s < d,
        d <= 0x0100_0000_0000_0000,
    ensures
        r.0 == (a + 100 * s) % (d as int),
        r.1 == (b + s) % (d as int),
        r.0 < d,
        r.1 < d,
{
    let sa = (100 * s) % d;
    proof {
        lemma_add_mod_noop_right(a as int, 100 * s as int, d as int);
    }
    let r0 = rotate_step(a, sa, d);
    let r1 = rotate_step(b, s, d);
    (r0, r1)
}

} // verus!
