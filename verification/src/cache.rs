//! The bidirectional round-trip cache.
//!
//! Converting to the perceptual space and back through the raw formulas is
//! not bit-exact, so the enumeration pass memoizes both directions: packed
//! quantized color to perceptual bit patterns, and packed perceptual bit
//! patterns back to the quantized color that produced them. Keys are exact
//! bit patterns, never rounded values. With two tables of one entry per
//! enumerated color (a full cube costs two maps of 16,777,216 entries,
//! memory traded for exactness), a lookup after a manipulation succeeds
//! exactly when the manipulated value is one the enumeration reached.
//!
//! The cache tracks whether the forward conversion has been injective on
//! everything recorded; while it is, converting a recorded color to its
//! perceptual form and back returns the color exactly.

use crate::color::PerceptualBits;
use crate::color::RgbQ;
use crate::color::lemma_perceptual_pack_round_trip;
use crate::color::lemma_rgbq_pack_round_trip;
use crate::color::lemma_rgbq_unpack_round_trip;
use crate::convert::perceptual_of;
use crate::convert::rgb_to_perceptual;
use crate::gamut::CUBE_SIZE;
use std::collections::HashMap;
use vstd::prelude::*;

verus! {

broadcast use vstd::std_specs::hash::group_hash_axioms;

/// The packed forms of the quantized colors in `[lo, hi)`.
pub open spec fn packed_range(lo: u32, hi: u32) -> Set<u32> {
    Set::new(|k: u32| lo <= k < hi)
}

/// Recording the colors of `[lo, hi)` against the reverse table `rev`
/// meets no collision: any of their perceptual keys already present in
/// `rev` is bound to that very color, and no two of them share one
/// perceptual value.
pub open spec fn range_collision_free(rev: Map<u128, RgbQ>, lo: u32, hi: u32) -> bool {
    &&& forall|j: u32|
        lo <= j < hi && rev.contains_key(
            (#[trigger] perceptual_of(RgbQ::spec_from_u32(j))).spec_pack(),
        ) ==> rev[perceptual_of(RgbQ::spec_from_u32(j)).spec_pack()] == RgbQ::spec_from_u32(j)
    &&& forall|j1: u32, j2: u32|
        lo <= j1 < j2 < hi ==> #[trigger] perceptual_of(RgbQ::spec_from_u32(j1))
            != #[trigger] perceptual_of(RgbQ::spec_from_u32(j2))
}

/// The bidirectional quantized-to-perceptual memo table.
pub struct RoundTripCache {
    /// Packed quantized color to its exact perceptual bit patterns.
    pub forward: HashMap<u32, PerceptualBits>,
    /// Packed perceptual bit patterns back to the color that produced them.
    pub reverse: HashMap<u128, RgbQ>,
    /// Whether every recorded color still maps back to itself: false as
    /// soon as two distinct recorded colors produced identical perceptual
    /// bit patterns.
    pub consistent: bool,
}

impl RoundTripCache {
    /// The forward table holds true conversions keyed by packed color; the
    /// reverse table only holds colors under the key their own conversion
    /// produces; and while `consistent`, the reverse table maps every
    /// forward entry's perceptual key back to exactly that entry's color.
    pub open spec fn inv(self) -> bool {
        &&& forall|k: u32| #[trigger]
            self.forward@.contains_key(k) ==> k < 0x100_0000 && self.forward@[k]
                == perceptual_of(RgbQ::spec_from_u32(k))
        &&& forall|pk: u128| #[trigger]
            self.reverse@.contains_key(pk) ==> perceptual_of(self.reverse@[pk]).spec_pack() == pk
                && self.forward@.contains_key(self.reverse@[pk].spec_as_u32())
        &&& (self.consistent ==> forall|k: u32| #[trigger]
            self.forward@.contains_key(k) ==> self.reverse@.contains_key(
                self.forward@[k].spec_pack(),
            ) && self.reverse@[self.forward@[k].spec_pack()].spec_as_u32() == k)
    }

    /// The cache has an entry for this quantized color.
    pub open spec fn has_rgb(self, c: RgbQ) -> bool {
        self.forward@.contains_key(c.spec_as_u32())
    }

    /// The cache has an entry for this perceptual bit pattern.
    pub open spec fn has_perceptual(self, p: PerceptualBits) -> bool {
        self.reverse@.contains_key(p.spec_pack())
    }

    /// An empty cache; trivially consistent.
    pub fn new() -> (cache: Self)
        ensures
            cache.inv(),
            cache.consistent,
            cache.forward@ == Map::<u32, PerceptualBits>::empty(),
            cache.reverse@ == Map::<u128, RgbQ>::empty(),
    {
        RoundTripCache { forward: HashMap::new(), reverse: HashMap::new(), consistent: true }
    }

    /// Whether every recorded color still round-trips to itself.
    pub fn is_consistent(&self) -> (r: bool)
        ensures
            r == self.consistent,
    {
        self.consistent
    }

    /// Converts one color and records both directions. The forward entry
    /// is always (re)written with the true conversion; the reverse entry
    /// is written only if its perceptual key is new, and a key collision
    /// with a different color marks the cache inconsistent.
    pub fn record(&mut self, c: RgbQ)
        requires
            old(self).inv(),
        ensures
            final(self).inv(),
            final(self).forward@ == old(self).forward@.insert(c.spec_as_u32(), perceptual_of(c)),
            final(self).reverse@ == if old(self).reverse@.contains_key(
                perceptual_of(c).spec_pack(),
            ) {
                old(self).reverse@
            } else {
                old(self).reverse@.insert(perceptual_of(c).spec_pack(), c)
            },
            final(self).consistent == (old(self).consistent && (!old(self).reverse@.contains_key(
                perceptual_of(c).spec_pack(),
            ) || old(self).reverse@[perceptual_of(c).spec_pack()] == c)),
    {
        let p = rgb_to_perceptual(c);
        let k = c.as_u32();
        let pk = p.pack();
        proof {
            lemma_rgbq_pack_round_trip(c);
            assert(p == perceptual_of(c));
        }
        match self.reverse.get(&pk) {
            Some(prev) => {
                if !(prev.r == c.r && prev.g == c.g && prev.b == c.b) {
                    self.consistent = false;
                }
            },
            None => {
                self.reverse.insert(pk, c);
            },
        }
        self.forward.insert(k, p);
        proof {
            let prior = *old(self);
            lemma_perceptual_pack_round_trip(p);
            assert forall|k2: u32| #[trigger]
                self.forward@.contains_key(k2) implies k2 < 0x100_0000 && self.forward@[k2]
                == perceptual_of(RgbQ::spec_from_u32(k2)) by {
                if k2 != k {
                    assert(prior.forward@.contains_key(k2));
                }
            }
            assert forall|pk2: u128| #[trigger]
                self.reverse@.contains_key(pk2) implies perceptual_of(
                self.reverse@[pk2],
            ).spec_pack() == pk2 && self.forward@.contains_key(
                self.reverse@[pk2].spec_as_u32(),
            ) by {
                if prior.reverse@.contains_key(pk2) {
                    assert(prior.forward@.contains_key(prior.reverse@[pk2].spec_as_u32()));
                } else {
                    assert(pk2 == pk && self.reverse@[pk2] == c);
                }
            }
            if self.consistent {
                assert forall|k2: u32| #[trigger]
                    self.forward@.contains_key(k2) implies self.reverse@.contains_key(
                    self.forward@[k2].spec_pack(),
                ) && self.reverse@[self.forward@[k2].spec_pack()].spec_as_u32() == k2 by {
                    if k2 == k {
                        assert(self.reverse@.contains_key(pk) && self.reverse@[pk] == c);
                    } else {
                        assert(prior.forward@.contains_key(k2));
                        let pv = prior.forward@[k2].spec_pack();
                        assert(prior.reverse@.contains_key(pv) && prior.reverse@[pv].spec_as_u32()
                            == k2);
                        assert(self.reverse@[pv] == prior.reverse@[pv]);
                    }
                }
            }
        }
    }

    /// The memoized forward conversion: the exact perceptual bit patterns
    /// of `c`, or nothing if `c` was never recorded.
    pub fn rgb_to_perceptual_cached(&self, c: RgbQ) -> (r: Option<PerceptualBits>)
        requires
            self.inv(),
        ensures
            match r {
                Some(p) => self.has_rgb(c) && p == perceptual_of(c),
                None => !self.has_rgb(c),
            },
    {
        let k = c.as_u32();
        proof {
            lemma_rgbq_pack_round_trip(c);
        }
        match self.forward.get(&k) {
            Some(p) => Some(*p),
            None => None,
        }
    }

    /// The memoized reverse conversion: the color whose conversion produced
    /// exactly these bit patterns, or nothing if no recorded color did. A
    /// miss signals that a manipulation left the enumerated domain.
    pub fn perceptual_to_rgb_cached(&self, p: PerceptualBits) -> (r: Option<RgbQ>)
        requires
            self.inv(),
        ensures
            match r {
                Some(c) => self.has_perceptual(p) && c == self.reverse@[p.spec_pack()]
                    && perceptual_of(c) == p,
                None => !self.has_perceptual(p),
            },
    {
        let pk = p.pack();
        let r = match self.reverse.get(&pk) {
            Some(c) => Some(*c),
            None => None,
        };
        proof {
            if r is Some {
                let c = r->0;
                assert(perceptual_of(c).spec_pack() == p.spec_pack());
                lemma_perceptual_pack_round_trip(perceptual_of(c));
                lemma_perceptual_pack_round_trip(p);
            }
        }
        r
    }

    /// Round-trip identity: while the cache is consistent, every recorded
    /// color converts to its perceptual form and back to exactly itself.
    pub proof fn lemma_round_trip_identity(self, c: RgbQ)
        requires
            self.inv(),
            self.consistent,
            self.has_rgb(c),
        ensures
            self.has_perceptual(perceptual_of(c)),
            self.reverse@[perceptual_of(c).spec_pack()] == c,
    {
        lemma_rgbq_pack_round_trip(c);
        let k = c.spec_as_u32();
        assert(self.forward@[k] == perceptual_of(c));
        assert(self.reverse@.contains_key(perceptual_of(c).spec_pack()));
        let v = self.reverse@[perceptual_of(c).spec_pack()];
        assert(v.spec_as_u32() == k);
        lemma_rgbq_pack_round_trip(v);
    }

    /// The executable round trip of one color through both tables: it
    /// yields a color exactly when both lookups hit. While the cache is
    /// consistent, it returns every recorded color unchanged; whatever
    /// comes back converts like the argument.
    pub fn round_trip(&self, c: RgbQ) -> (r: Option<RgbQ>)
        requires
            self.inv(),
        ensures
            self.consistent && self.has_rgb(c) ==> r == Some(c),
            r is Some <==> self.has_rgb(c) && self.has_perceptual(perceptual_of(c)),
            match r {
                Some(x) => perceptual_of(x) == perceptual_of(c),
                None => !(self.consistent && self.has_rgb(c)),
            },
    {
        proof {
            if self.consistent && self.has_rgb(c) {
                self.lemma_round_trip_identity(c);
            }
        }
        match self.rgb_to_perceptual_cached(c) {
            Some(p) => self.perceptual_to_rgb_cached(p),
            None => None,
        }
    }

    /// Records every color whose packed form lies in `[lo, hi)`; chunking
    /// lets a caller report progress between chunks. The cache stays
    /// consistent exactly when it was and the recorded range collides
    /// neither with the reverse table nor within itself.
    pub fn record_cube_range(&mut self, lo: u32, hi: u32)
        requires
            old(self).inv(),
            lo <= hi,
            hi <= CUBE_SIZE,
        ensures
            final(self).inv(),
            final(self).forward@.dom() == old(self).forward@.dom().union(packed_range(lo, hi)),
            final(self).consistent == (old(self).consistent && range_collision_free(
                old(self).reverse@,
                lo,
                hi,
            )),
    {
        let mut i = lo;
        proof {
            assert(self.forward@.dom() =~= old(self).forward@.dom().union(packed_range(lo, lo)));
        }
        while i < hi
            invariant
                self.inv(),
                lo <= i <= hi,
                hi <= CUBE_SIZE,
                self.forward@.dom() == old(self).forward@.dom().union(packed_range(lo, i)),
                self.consistent == (old(self).consistent && range_collision_free(
                    old(self).reverse@,
                    lo,
                    i,
                )),
                forall|pk: u128| #[trigger]
                    old(self).reverse@.contains_key(pk) ==> self.reverse@.contains_key(pk)
                        && self.reverse@[pk] == old(self).reverse@[pk],
                forall|j: u32|
                    lo <= j < i ==> self.reverse@.contains_key(
                        (#[trigger] perceptual_of(RgbQ::spec_from_u32(j))).spec_pack(),
                    ),
                forall|pk: u128| #[trigger]
                    self.reverse@.contains_key(pk) && !old(self).reverse@.contains_key(pk)
                        ==> exists|j: u32|
                        lo <= j < i && (#[trigger] perceptual_of(
                            RgbQ::spec_from_u32(j),
                        )).spec_pack() == pk && self.reverse@[pk] == RgbQ::spec_from_u32(j),
            decreases hi - i,
        {
            let ghost prev = *self;
            let c = RgbQ::from_u32(i);
            self.record(c);
            proof {
                lemma_rgbq_unpack_round_trip(i);
                lemma_extend_recorded_range(*old(self), prev, *self, lo, i);
                assert(self.forward@.dom() =~= old(self).forward@.dom().union(
                    packed_range(lo, (i + 1) as u32),
                ));
            }
            i = i + 1;
        }
    }

    /// Builds the memo table for the full 8-bit cube: after this, every
    /// quantized color has a forward entry, and the cache is consistent
    /// exactly when the conversion is injective over the whole cube.
    pub fn build_cube() -> (cache: Self)
        ensures
            cache.inv(),
            forall|c: RgbQ| #[trigger] cache.has_rgb(c),
            cache.consistent <==> (forall|c1: RgbQ, c2: RgbQ|
                perceptual_of(c1) == perceptual_of(c2) ==> c1 == c2),
    {
        let mut cache = RoundTripCache::new();
        cache.record_cube_range(0, CUBE_SIZE);
        proof {
            assert forall|c: RgbQ| #[trigger] cache.has_rgb(c) by {
                lemma_rgbq_pack_round_trip(c);
                assert(packed_range(0, CUBE_SIZE).contains(c.spec_as_u32()));
            }
            if cache.consistent {
                assert forall|c1: RgbQ, c2: RgbQ|
                    perceptual_of(c1) == perceptual_of(c2) implies c1 == c2 by {
                    lemma_rgbq_pack_round_trip(c1);
                    lemma_rgbq_pack_round_trip(c2);
                    let j1 = c1.spec_as_u32();
                    let j2 = c2.spec_as_u32();
                    if j1 < j2 {
                        assert(perceptual_of(RgbQ::spec_from_u32(j1)) != perceptual_of(
                            RgbQ::spec_from_u32(j2),
                        ));
                        assert(false);
                    } else if j2 < j1 {
                        assert(perceptual_of(RgbQ::spec_from_u32(j2)) != perceptual_of(
                            RgbQ::spec_from_u32(j1),
                        ));
                        assert(false);
                    }
                }
            } else {
                // the flag fell, and only the range's own collisions can
                // have felled it: the reverse table started empty
                assert forall|j: u32|
                    0 <= j < CUBE_SIZE && Map::<u128, RgbQ>::empty().contains_key(
                        (#[trigger] perceptual_of(RgbQ::spec_from_u32(j))).spec_pack(),
                    ) implies Map::<u128, RgbQ>::empty()[perceptual_of(
                    RgbQ::spec_from_u32(j),
                ).spec_pack()] == RgbQ::spec_from_u32(j) by {}
                assert(!(forall|j1: u32, j2: u32|
                    0 <= j1 < j2 < CUBE_SIZE ==> #[trigger] perceptual_of(RgbQ::spec_from_u32(j1))
                        != #[trigger] perceptual_of(RgbQ::spec_from_u32(j2))));
                let (j1, j2) = choose|j1: u32, j2: u32|
                    0 <= j1 < j2 < CUBE_SIZE && #[trigger] perceptual_of(RgbQ::spec_from_u32(j1))
                        == #[trigger] perceptual_of(RgbQ::spec_from_u32(j2));
                lemma_rgbq_unpack_round_trip(j1);
                lemma_rgbq_unpack_round_trip(j2);
                assert(RgbQ::spec_from_u32(j1) != RgbQ::spec_from_u32(j2));
            }
        }
        cache
    }
}

/// One recording step extends the collision-free characterization of a
/// recorded range by one index: the consistency flag after recording the
/// color of index `i` equals the flag one would state for the range grown
/// to `i + 1`, and the reverse table still consists of its original
/// entries plus one entry per distinct perceptual value of the range.
proof fn lemma_extend_recorded_range(
    orig: RoundTripCache,
    prev: RoundTripCache,
    cur: RoundTripCache,
    lo: u32,
    i: u32,
)
    requires
        lo <= i < CUBE_SIZE,
        prev.consistent == (orig.consistent && range_collision_free(orig.reverse@, lo, i)),
        forall|pk: u128| #[trigger]
            orig.reverse@.contains_key(pk) ==> prev.reverse@.contains_key(pk) && prev.reverse@[pk]
                == orig.reverse@[pk],
        forall|j: u32|
            lo <= j < i ==> prev.reverse@.contains_key(
                (#[trigger] perceptual_of(RgbQ::spec_from_u32(j))).spec_pack(),
            ),
        forall|pk: u128| #[trigger]
            prev.reverse@.contains_key(pk) && !orig.reverse@.contains_key(pk) ==> exists|j: u32|
                lo <= j < i && (#[trigger] perceptual_of(RgbQ::spec_from_u32(j))).spec_pack() == pk
                    && prev.reverse@[pk] == RgbQ::spec_from_u32(j),
        cur.reverse@ == (if prev.reverse@.contains_key(
            perceptual_of(RgbQ::spec_from_u32(i)).spec_pack(),
        ) {
            prev.reverse@
        } else {
            prev.reverse@.insert(
                perceptual_of(RgbQ::spec_from_u32(i)).spec_pack(),
                RgbQ::spec_from_u32(i),
            )
        }),
        cur.consistent == (prev.consistent && (!prev.reverse@.contains_key(
            perceptual_of(RgbQ::spec_from_u32(i)).spec_pack(),
        ) || prev.reverse@[perceptual_of(RgbQ::spec_from_u32(i)).spec_pack()]
            == RgbQ::spec_from_u32(i))),
    ensures
        cur.consistent == (orig.consistent && range_collision_free(
            orig.reverse@,
            lo,
            (i + 1) as u32,
        )),
        forall|pk: u128| #[trigger]
            orig.reverse@.contains_key(pk) ==> cur.reverse@.contains_key(pk) && cur.reverse@[pk]
                == orig.reverse@[pk],
        forall|j: u32|
            lo <= j < i + 1 ==> cur.reverse@.contains_key(
                (#[trigger] perceptual_of(RgbQ::spec_from_u32(j))).spec_pack(),
            ),
        forall|pk: u128| #[trigger]
            cur.reverse@.contains_key(pk) && !orig.reverse@.contains_key(pk) ==> exists|j: u32|
                lo <= j < i + 1 && (#[trigger] perceptual_of(RgbQ::spec_from_u32(j))).spec_pack()
                    == pk && cur.reverse@[pk] == RgbQ::spec_from_u32(j),
{
    let ci = RgbQ::spec_from_u32(i);
    let pki = perceptual_of(ci).spec_pack();
    lemma_rgbq_unpack_round_trip(i);
    assert forall|pk: u128| #[trigger]
        cur.reverse@.contains_key(pk) && !orig.reverse@.contains_key(pk) implies exists|j: u32|
        lo <= j < i + 1 && (#[trigger] perceptual_of(RgbQ::spec_from_u32(j))).spec_pack() == pk
            && cur.reverse@[pk] == RgbQ::spec_from_u32(j) by {
        if prev.reverse@.contains_key(pk) {
            let jw = choose|j: u32|
                lo <= j < i && (#[trigger] perceptual_of(RgbQ::spec_from_u32(j))).spec_pack() == pk
                    && prev.reverse@[pk] == RgbQ::spec_from_u32(j);
            assert(lo <= jw < i + 1 && perceptual_of(RgbQ::spec_from_u32(jw)).spec_pack() == pk
                && cur.reverse@[pk] == RgbQ::spec_from_u32(jw));
        } else {
            assert(pk == pki && cur.reverse@[pk] == ci);
            assert(lo <= i < i + 1 && perceptual_of(RgbQ::spec_from_u32(i)).spec_pack() == pk
                && cur.reverse@[pk] == RgbQ::spec_from_u32(i));
        }
    }
    if cur.consistent {
        assert forall|j: u32|
            lo <= j < i + 1 && orig.reverse@.contains_key(
                (#[trigger] perceptual_of(RgbQ::spec_from_u32(j))).spec_pack(),
            ) implies orig.reverse@[perceptual_of(RgbQ::spec_from_u32(j)).spec_pack()]
            == RgbQ::spec_from_u32(j) by {
            if j == i {
                assert(prev.reverse@.contains_key(pki) && prev.reverse@[pki]
                    == orig.reverse@[pki]);
            }
        }
        assert forall|j1: u32, j2: u32| lo <= j1 < j2 < i + 1 implies perceptual_of(
            RgbQ::spec_from_u32(j1),
        ) != perceptual_of(RgbQ::spec_from_u32(j2)) by {
            if j2 == i && perceptual_of(RgbQ::spec_from_u32(j1)) == perceptual_of(
                RgbQ::spec_from_u32(i),
            ) {
                let pkj = perceptual_of(RgbQ::spec_from_u32(j1)).spec_pack();
                assert(pkj == pki);
                assert(prev.reverse@.contains_key(pkj));
                assert(prev.reverse@[pki] == ci);
                if orig.reverse@.contains_key(pkj) {
                    assert(orig.reverse@[pkj] == RgbQ::spec_from_u32(j1));
                    lemma_rgbq_unpack_round_trip(j1);
                    assert(false);
                } else {
                    let jw = choose|j: u32|
                        lo <= j < i && (#[trigger] perceptual_of(
                            RgbQ::spec_from_u32(j),
                        )).spec_pack() == pkj && prev.reverse@[pkj] == RgbQ::spec_from_u32(j);
                    lemma_rgbq_unpack_round_trip(jw);
                    assert(RgbQ::spec_from_u32(jw) == ci);
                    assert(false);
                }
            }
        }
        assert(range_collision_free(orig.reverse@, lo, (i + 1) as u32));
    }
    if !cur.consistent && orig.consistent && range_collision_free(
        orig.reverse@,
        lo,
        (i + 1) as u32,
    ) {
        assert forall|j: u32|
            lo <= j < i && orig.reverse@.contains_key(
                (#[trigger] perceptual_of(RgbQ::spec_from_u32(j))).spec_pack(),
            ) implies orig.reverse@[perceptual_of(RgbQ::spec_from_u32(j)).spec_pack()]
            == RgbQ::spec_from_u32(j) by {}
        assert forall|j1: u32, j2: u32| lo <= j1 < j2 < i implies perceptual_of(
            RgbQ::spec_from_u32(j1),
        ) != perceptual_of(RgbQ::spec_from_u32(j2)) by {}
        assert(range_collision_free(orig.reverse@, lo, i));
        assert(prev.consistent);
        assert(prev.reverse@.contains_key(pki) && prev.reverse@[pki] != ci);
        if orig.reverse@.contains_key(pki) {
            assert(orig.reverse@[pki] == ci);
            assert(false);
        } else {
            let jw = choose|j: u32|
                lo <= j < i && (#[trigger] perceptual_of(RgbQ::spec_from_u32(j))).spec_pack()
                    == pki && prev.reverse@[pki] == RgbQ::spec_from_u32(j);
            lemma_perceptual_pack_round_trip(perceptual_of(RgbQ::spec_from_u32(jw)));
            lemma_perceptual_pack_round_trip(perceptual_of(RgbQ::spec_from_u32(i)));
            assert(perceptual_of(RgbQ::spec_from_u32(jw)) == perceptual_of(
                RgbQ::spec_from_u32(i),
            ));
            assert(false);
        }
    }
}

} // verus!
