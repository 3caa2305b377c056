//! Gamut bounds estimation: enumerate quantized colors, convert each to its
//! perceptual form, and fold to the extremal chroma bit patterns.
//!
//! The accumulator absorbs colors one at a time and merges with other
//! accumulators; the result depends only on the set of colors absorbed, so
//! partitions of the cube may be folded in any order, or in parallel, and
//! merged at the end.

use crate::color::RgbQ;
use crate::color::lemma_rgbq_pack_round_trip;
use crate::color::lemma_rgbq_unpack_round_trip;
use crate::convert::chroma_a_of;
use crate::convert::chroma_b_of;
use crate::convert::rgb_to_perceptual;
use crate::order::key_le;
use crate::order::max_bits;
use crate::order::min_bits;
use crate::order::same_float_value;
use crate::order::same_value;
use vstd::prelude::*;

verus! {

/// The number of colors in the full 8-bit RGB cube: `256 * 256 * 256`.
pub const CUBE_SIZE: u32 = 0x100_0000;

/// Frozen chroma extents of the enumerated gamut, as float bit patterns.
///
/// Once estimation finishes the bounds are shared read-only; every chroma
/// value reachable from the enumerated domain lies between the minimum and
/// the maximum of its channel in the total order on encoded values.
#[derive(Copy, Clone, Debug, PartialEq, Eq, Structural)]
pub struct GamutBounds {
    pub min_a: u32,
    pub max_a: u32,
    pub min_b: u32,
    pub max_b: u32,
}

impl GamutBounds {
    /// The chroma channels of `c`'s perceptual form lie within the bounds.
    pub open spec fn encloses(self, c: RgbQ) -> bool {
        &&& key_le(self.min_a, chroma_a_of(c))
        &&& key_le(chroma_a_of(c), self.max_a)
        &&& key_le(self.min_b, chroma_b_of(c))
        &&& key_le(chroma_b_of(c), self.max_b)
    }

    /// Both chroma ranges are non-degenerate: each minimum encodes a value
    /// strictly below its maximum, so normalization never divides by zero.
    pub open spec fn non_degenerate(self) -> bool {
        &&& !same_float_value(self.min_a, self.max_a)
        &&& !same_float_value(self.min_b, self.max_b)
    }
}

/// Why no bounds could be produced.
#[derive(Copy, Clone, Debug, PartialEq, Eq, Structural)]
pub enum GamutError {
    /// No color was absorbed, so there are no extents to report.
    EmptyDomain,
    /// A chroma range collapsed: its minimum and maximum encode the same
    /// value, and normalization against it would divide by zero.
    DegenerateBounds,
}

/// `bits` sorts at or below the `a` chroma of every quantized color.
pub open spec fn lower_a_bound(bits: u32) -> bool {
    forall|c: RgbQ| key_le(bits, #[trigger] chroma_a_of(c))
}

/// `bits` sorts at or above the `a` chroma of every quantized color.
pub open spec fn upper_a_bound(bits: u32) -> bool {
    forall|c: RgbQ| key_le(#[trigger] chroma_a_of(c), bits)
}

/// Some quantized color has exactly this `a` chroma bit pattern.
pub open spec fn attained_a(bits: u32) -> bool {
    exists|c: RgbQ| #[trigger] chroma_a_of(c) == bits
}

/// `bits` sorts at or below the `b` chroma of every quantized color.
pub open spec fn lower_b_bound(bits: u32) -> bool {
    forall|c: RgbQ| key_le(bits, #[trigger] chroma_b_of(c))
}

/// `bits` sorts at or above the `b` chroma of every quantized color.
pub open spec fn upper_b_bound(bits: u32) -> bool {
    forall|c: RgbQ| key_le(#[trigger] chroma_b_of(c), bits)
}

/// Some quantized color has exactly this `b` chroma bit pattern.
pub open spec fn attained_b(bits: u32) -> bool {
    exists|c: RgbQ| #[trigger] chroma_b_of(c) == bits
}

/// The quantized colors whose packed form lies in `[lo, hi)`.
pub open spec fn cube_range(lo: u32, hi: u32) -> Set<RgbQ> {
    Set::new(|c: RgbQ| lo <= c.spec_as_u32() < hi)
}

/// A running reduction of chroma extents over a set of absorbed colors.
pub struct GamutAccumulator {
    /// Whether any color has been absorbed yet.
    pub seen: bool,
    /// Extremal chroma bit patterns over the absorbed colors.
    pub min_a: u32,
    pub max_a: u32,
    pub min_b: u32,
    pub max_b: u32,
    /// The set of colors absorbed so far.
    pub domain: Ghost<Set<RgbQ>>,
}

impl GamutAccumulator {
    /// The extents are exactly the extrema of the chroma channels over the
    /// absorbed domain: every absorbed color lies within them, and each of
    /// the four is attained by some absorbed color.
    pub open spec fn inv(self) -> bool {
        &&& (!self.seen ==> self.domain@ =~= Set::<RgbQ>::empty())
        &&& (self.seen ==> {
            &&& exists|c: RgbQ|
                self.domain@.contains(c) && #[trigger] chroma_a_of(c) == self.min_a
            &&& exists|c: RgbQ|
                self.domain@.contains(c) && #[trigger] chroma_a_of(c) == self.max_a
            &&& exists|c: RgbQ|
                self.domain@.contains(c) && #[trigger] chroma_b_of(c) == self.min_b
            &&& exists|c: RgbQ|
                self.domain@.contains(c) && #[trigger] chroma_b_of(c) == self.max_b
        })
        &&& forall|c: RgbQ| #[trigger]
            self.domain@.contains(c) ==> key_le(self.min_a, chroma_a_of(c)) && key_le(
                chroma_a_of(c),
                self.max_a,
            ) && key_le(self.min_b, chroma_b_of(c)) && key_le(chroma_b_of(c), self.max_b)
    }

    /// An empty accumulator: nothing absorbed, no extents yet.
    pub fn new() -> (acc: Self)
        ensures
            acc.inv(),
            acc.domain@ =~= Set::<RgbQ>::empty(),
            !acc.seen,
    {
        GamutAccumulator {
            seen: false,
            min_a: 0,
            max_a: 0,
            min_b: 0,
            max_b: 0,
            domain: Ghost(Set::empty()),
        }
    }

    /// Converts one color and folds its chroma channels into the extents.
    pub fn absorb(&mut self, c: RgbQ)
        requires
            old(self).inv(),
        ensures
            final(self).inv(),
            final(self).domain@ == old(self).domain@.insert(c),
            final(self).seen,
    {
        let p = rgb_to_perceptual(c);
        if !self.seen {
            self.seen = true;
            self.min_a = p.a;
            self.max_a = p.a;
            self.min_b = p.b;
            self.max_b = p.b;
        } else {
            self.min_a = min_bits(self.min_a, p.a);
            self.max_a = max_bits(self.max_a, p.a);
            self.min_b = min_bits(self.min_b, p.b);
            self.max_b = max_bits(self.max_b, p.b);
        }
        self.domain = Ghost(self.domain@.insert(c));
        proof {
            assert(self.domain@.contains(c));
            assert(p.a == chroma_a_of(c) && p.b == chroma_b_of(c));
            if old(self).seen {
                let wa = choose|w: RgbQ|
                    old(self).domain@.contains(w) && #[trigger] chroma_a_of(w) == old(self).min_a;
                let xa = choose|w: RgbQ|
                    old(self).domain@.contains(w) && #[trigger] chroma_a_of(w) == old(self).max_a;
                let wb = choose|w: RgbQ|
                    old(self).domain@.contains(w) && #[trigger] chroma_b_of(w) == old(self).min_b;
                let xb = choose|w: RgbQ|
                    old(self).domain@.contains(w) && #[trigger] chroma_b_of(w) == old(self).max_b;
                assert(self.domain@.contains(wa) && self.domain@.contains(xa)
                    && self.domain@.contains(wb) && self.domain@.contains(xb));
                assert(self.min_a == chroma_a_of(wa) || self.min_a == chroma_a_of(c));
                assert(self.max_a == chroma_a_of(xa) || self.max_a == chroma_a_of(c));
                assert(self.min_b == chroma_b_of(wb) || self.min_b == chroma_b_of(c));
                assert(self.max_b == chroma_b_of(xb) || self.max_b == chroma_b_of(c));
            }
        }
    }

    /// Folds another accumulator's extents into this one. The combined
    /// domain is the union, so merging is commutative and associative up
    /// to the set of absorbed colors, and partitions may merge in any
    /// order.
    pub fn merge(&mut self, other: &GamutAccumulator)
        requires
            old(self).inv(),
            other.inv(),
        ensures
            final(self).inv(),
            final(self).domain@ == old(self).domain@.union(other.domain@),
    {
        if !other.seen {
            proof {
                assert(old(self).domain@.union(other.domain@) =~= old(self).domain@);
            }
            self.domain = Ghost(self.domain@.union(other.domain@));
        } else if !self.seen {
            self.seen = true;
            self.min_a = other.min_a;
            self.max_a = other.max_a;
            self.min_b = other.min_b;
            self.max_b = other.max_b;
            proof {
                assert(old(self).domain@.union(other.domain@) =~= other.domain@);
            }
            self.domain = Ghost(self.domain@.union(other.domain@));
        } else {
            self.min_a = min_bits(self.min_a, other.min_a);
            self.max_a = max_bits(self.max_a, other.max_a);
            self.min_b = min_bits(self.min_b, other.min_b);
            self.max_b = max_bits(self.max_b, other.max_b);
            self.domain = Ghost(self.domain@.union(other.domain@));
            proof {
                let wa1 = choose|w: RgbQ|
                    old(self).domain@.contains(w) && #[trigger] chroma_a_of(w) == old(self).min_a;
                let wa2 = choose|w: RgbQ|
                    other.domain@.contains(w) && #[trigger] chroma_a_of(w) == other.min_a;
                let xa1 = choose|w: RgbQ|
                    old(self).domain@.contains(w) && #[trigger] chroma_a_of(w) == old(self).max_a;
                let xa2 = choose|w: RgbQ|
                    other.domain@.contains(w) && #[trigger] chroma_a_of(w) == other.max_a;
                let wb1 = choose|w: RgbQ|
                    old(self).domain@.contains(w) && #[trigger] chroma_b_of(w) == old(self).min_b;
                let wb2 = choose|w: RgbQ|
                    other.domain@.contains(w) && #[trigger] chroma_b_of(w) == other.min_b;
                let xb1 = choose|w: RgbQ|
                    old(self).domain@.contains(w) && #[trigger] chroma_b_of(w) == old(self).max_b;
                let xb2 = choose|w: RgbQ|
                    other.domain@.contains(w) && #[trigger] chroma_b_of(w) == other.max_b;
                assert(self.domain@.contains(wa1) && self.domain@.contains(wa2)
                    && self.domain@.contains(xa1) && self.domain@.contains(xa2)
                    && self.domain@.contains(wb1) && self.domain@.contains(wb2)
                    && self.domain@.contains(xb1) && self.domain@.contains(xb2));
                assert(self.min_a == chroma_a_of(wa1) || self.min_a == chroma_a_of(wa2));
                assert(self.max_a == chroma_a_of(xa1) || self.max_a == chroma_a_of(xa2));
                assert(self.min_b == chroma_b_of(wb1) || self.min_b == chroma_b_of(wb2));
                assert(self.max_b == chroma_b_of(xb1) || self.max_b == chroma_b_of(xb2));
            }
        }
    }

    /// Absorbs every color whose packed form lies in `[lo, hi)`. Chunking
    /// the cube through repeated calls lets a caller report progress
    /// between chunks without affecting the result.
    pub fn absorb_cube_range(&mut self, lo: u32, hi: u32)
        requires
            old(self).inv(),
            lo <= hi,
            hi <= CUBE_SIZE,
        ensures
            final(self).inv(),
            final(self).domain@ == old(self).domain@.union(cube_range(lo, hi)),
    {
        let mut i = lo;
        proof {
            assert(self.domain@ =~= old(self).domain@.union(cube_range(lo, lo)));
        }
        while i < hi
            invariant
                self.inv(),
                lo <= i <= hi,
                hi <= CUBE_SIZE,
                self.domain@ == old(self).domain@.union(cube_range(lo, i)),
            decreases hi - i,
        {
            let c = RgbQ::from_u32(i);
            self.absorb(c);
            proof {
                lemma_rgbq_unpack_round_trip(i);
                assert forall|x: RgbQ| #[trigger]
                    cube_range(lo, (i + 1) as u32).contains(x) implies cube_range(
                    lo,
                    i,
                ).insert(c).contains(x) by {
                    if x.spec_as_u32() == i {
                        lemma_rgbq_pack_round_trip(x);
                        assert(x == c);
                    }
                }
                assert(old(self).domain@.union(cube_range(lo, i)).insert(c) =~= old(
                    self,
                ).domain@.union(cube_range(lo, (i + 1) as u32)));
            }
            i = i + 1;
        }
    }

    /// Freezes the extents into bounds, rejecting an empty domain and,
    /// defensively, a collapsed chroma range.
    pub fn finish(&self) -> (r: Result<GamutBounds, GamutError>)
        requires
            self.inv(),
        ensures
            match r {
                Ok(b) => {
                    &&& self.seen
                    &&& b == (GamutBounds {
                        min_a: self.min_a,
                        max_a: self.max_a,
                        min_b: self.min_b,
                        max_b: self.max_b,
                    })
                    &&& b.non_degenerate()
                    &&& forall|c: RgbQ| #[trigger] self.domain@.contains(c) ==> b.encloses(c)
                },
                Err(GamutError::EmptyDomain) => !self.seen,
                Err(GamutError::DegenerateBounds) => self.seen && (same_float_value(
                    self.min_a,
                    self.max_a,
                ) || same_float_value(self.min_b, self.max_b)),
            },
            r is Ok <==> self.seen && !same_float_value(self.min_a, self.max_a)
                && !same_float_value(self.min_b, self.max_b),
    {
        if !self.seen {
            Err(GamutError::EmptyDomain)
        } else if same_value(self.min_a, self.max_a) || same_value(self.min_b, self.max_b) {
            Err(GamutError::DegenerateBounds)
        } else {
            Ok(
                GamutBounds {
                    min_a: self.min_a,
                    max_a: self.max_a,
                    min_b: self.min_b,
                    max_b: self.max_b,
                },
            )
        }
    }
}

/// Enumerates the full 8-bit cube exactly once and reduces to the chroma
/// extents. On success the bounds enclose the chroma of every quantized
/// color, each of the four extents is attained by some color, and the
/// ranges are non-degenerate; the defensive failure names a collapsed
/// range that really is the extent of the whole cube.
pub fn estimate() -> (r: Result<GamutBounds, GamutError>)
    ensures
        match r {
            Ok(b) => {
                &&& forall|c: RgbQ| b.encloses(c)
                &&& attained_a(b.min_a) && attained_a(b.max_a)
                &&& attained_b(b.min_b) && attained_b(b.max_b)
                &&& lower_a_bound(b.min_a) && upper_a_bound(b.max_a)
                &&& lower_b_bound(b.min_b) && upper_b_bound(b.max_b)
                &&& b.non_degenerate()
            },
            Err(e) => e is DegenerateBounds && ((exists|mn: u32, mx: u32|
                #![auto]
                attained_a(mn) && attained_a(mx) && lower_a_bound(mn) && upper_a_bound(mx)
                    && same_float_value(mn, mx)) || (exists|mn: u32, mx: u32|
                #![auto]
                attained_b(mn) && attained_b(mx) && lower_b_bound(mn) && upper_b_bound(mx)
                    && same_float_value(mn, mx))),
        },
{
    let mut acc = GamutAccumulator::new();
    acc.absorb_cube_range(0, CUBE_SIZE);
    proof {
        assert forall|c: RgbQ| #[trigger] acc.domain@.contains(c) by {
            lemma_rgbq_pack_round_trip(c);
            assert(cube_range(0, CUBE_SIZE).contains(c));
        }
        let c0 = RgbQ { r: 0, g: 0, b: 0 };
        assert(acc.domain@.contains(c0));
        if !acc.seen {
            assert(acc.domain@ == Set::<RgbQ>::empty());
            assert(!acc.domain@.contains(c0));
        }
        assert(acc.seen);
        assert forall|c: RgbQ|
            key_le(acc.min_a, #[trigger] chroma_a_of(c)) && key_le(chroma_a_of(c), acc.max_a) by {
            assert(acc.domain@.contains(c));
        }
        assert forall|c: RgbQ|
            key_le(acc.min_b, #[trigger] chroma_b_of(c)) && key_le(chroma_b_of(c), acc.max_b) by {
            assert(acc.domain@.contains(c));
        }
        let wa = choose|w: RgbQ|
            acc.domain@.contains(w) && #[trigger] chroma_a_of(w) == acc.min_a;
        let xa = choose|w: RgbQ|
            acc.domain@.contains(w) && #[trigger] chroma_a_of(w) == acc.max_a;
        let wb = choose|w: RgbQ|
            acc.domain@.contains(w) && #[trigger] chroma_b_of(w) == acc.min_b;
        let xb = choose|w: RgbQ|
            acc.domain@.contains(w) && #[trigger] chroma_b_of(w) == acc.max_b;
        assert(chroma_a_of(wa) == acc.min_a && chroma_a_of(xa) == acc.max_a && chroma_b_of(wb)
            == acc.min_b && chroma_b_of(xb) == acc.max_b);
        assert(attained_a(acc.min_a) && attained_a(acc.max_a) && attained_b(acc.min_b)
            && attained_b(acc.max_b));
        assert(lower_a_bound(acc.min_a) && upper_a_bound(acc.max_a) && lower_b_bound(acc.min_b)
            && upper_b_bound(acc.max_b));
    }
    let r = acc.finish();
    proof {
        match r {
            Ok(b) => {
                assert forall|c: RgbQ| b.encloses(c) by {
                    assert(acc.domain@.contains(c));
                }
            },
            Err(e) => {
                assert(e is DegenerateBounds);
                if same_float_value(acc.min_a, acc.max_a) {
                    assert(attained_a(acc.min_a) && attained_a(acc.max_a) && lower_a_bound(
                        acc.min_a,
                    ) && upper_a_bound(acc.max_a) && same_float_value(acc.min_a, acc.max_a));
                } else {
                    assert(attained_b(acc.min_b) && attained_b(acc.max_b) && lower_b_bound(
                        acc.min_b,
                    ) && upper_b_bound(acc.max_b) && same_float_value(acc.min_b, acc.max_b));
                }
            },
        }
    }
    r
}

} // verus!
