//! The per-pixel remap pipeline.
//!
//! A frame is processed in three stages: every pixel is converted to its
//! perceptual form through the cache, the normalized chroma manipulation
//! runs over those values, and the manipulated values are converted back
//! through the cache into an output image of the same dimensions. A cache
//! miss on the way back means the manipulation produced a perceptual value
//! outside the enumerated domain; that is a defect, not a recoverable
//! condition, so the whole frame fails fast with the pixel's coordinates.

use crate::cache::RoundTripCache;
use crate::color::PerceptualBits;
use crate::color::RgbQ;
use crate::convert::perceptual_of;
use crate::convert::perceptual_to_rgb;
use crate::convert::rgb_to_perceptual;
use crate::convert::srgb_of_oklab_bits;
use vstd::prelude::*;

verus! {

/// Why a frame could not be rendered.
#[derive(Copy, Clone, Debug, PartialEq, Eq, Structural)]
pub enum RemapError {
    /// The pixel at `(x, y)` produced a perceptual value with no entry in
    /// the round-trip cache.
    DomainExhaustion { x: u32, y: u32 },
}

/// A raster image of quantized colors, row-major: the pixel at `(x, y)`
/// is `pixels[y * width + x]`.
#[derive(Debug)]
pub struct ImageQ {
    pub width: u32,
    pub height: u32,
    pub pixels: Vec<RgbQ>,
}

impl ImageQ {
    /// The pixel buffer holds exactly one color per coordinate.
    pub open spec fn wf(self) -> bool {
        self.pixels@.len() == self.width * self.height
    }

    /// Assembles an image, rejecting a buffer whose length does not match
    /// the dimensions.
    pub fn from_pixels(width: u32, height: u32, pixels: Vec<RgbQ>) -> (r: Option<ImageQ>)
        ensures
            match r {
                Some(img) => {
                    &&& img.wf()
                    &&& img.width == width
                    &&& img.height == height
                    &&& img.pixels@ == pixels@
                },
                None => pixels@.len() != width * height,
            },
            r is Some <==> pixels@.len() == width * height,
    {
        proof {
            assert((width as int) * (height as int) <= 0xffff_ffff * 0xffff_ffff)
                by (nonlinear_arith)
                requires
                    width <= 0xffff_ffffu32,
                    height <= 0xffff_ffffu32,
            ;
        }
        if pixels.len() as u64 == (width as u64) * (height as u64) {
            Some(ImageQ { width, height, pixels })
        } else {
            None
        }
    }
}

/// Converts the pixel at linear index `i` to its coordinates.
fn index_to_coords(i: usize, width: u32, height: u32) -> (r: (u32, u32))
    requires
        i < width * height,
    ensures
        r.0 < width,
        r.1 < height,
        r.1 * width + r.0 == i,
{
    proof {
        assert(width > 0) by (nonlinear_arith)
            requires
                i < width * height,
        ;
        assert((i as int) % (width as int) < width as int && (i as int) / (width as int)
            < height as int && ((i as int) / (width as int)) * (width as int) + (i as int) % (
        width as int) == i as int) by (nonlinear_arith)
            requires
                i < width * height,
                width > 0,
        ;
    }
    let x = (i % (width as usize)) as u32;
    let y = (i / (width as usize)) as u32;
    (x, y)
}

/// The first pipeline stage: looks every pixel up in the cache and hands
/// back the exact perceptual bit patterns, in pixel order. Succeeds if and
/// only if every pixel of the image has a cache entry; otherwise reports
/// the coordinates of the first pixel without one.
pub fn image_to_perceptual(cache: &RoundTripCache, img: &ImageQ) -> (r: Result<
    Vec<PerceptualBits>,
    RemapError,
>)
    requires
        cache.inv(),
        img.wf(),
    ensures
        match r {
            Ok(v) => {
                &&& v@.len() == img.pixels@.len()
                &&& forall|i: int|
                    0 <= i < v@.len() ==> cache.has_rgb(#[trigger] img.pixels@[i]) && v@[i]
                        == perceptual_of(img.pixels@[i])
            },
            Err(RemapError::DomainExhaustion { x, y }) => {
                &&& x < img.width
                &&& y < img.height
                &&& !cache.has_rgb(img.pixels@[y * img.width + x])
            },
        },
        r is Ok <==> forall|i: int|
            0 <= i < img.pixels@.len() ==> cache.has_rgb(#[trigger] img.pixels@[i]),
{
    let n = img.pixels.len();
    let mut out: Vec<PerceptualBits> = Vec::new();
    let mut i: usize = 0;
    while i < n
        invariant
            cache.inv(),
            img.wf(),
            n == img.pixels@.len(),
            i <= n,
            out@.len() == i,
            forall|j: int|
                0 <= j < i ==> cache.has_rgb(#[trigger] img.pixels@[j]) && out@[j]
                    == perceptual_of(img.pixels@[j]),
        decreases n - i,
    {
        match cache.rgb_to_perceptual_cached(img.pixels[i]) {
            Some(p) => {
                out.push(p);
            },
            None => {
                let (x, y) = index_to_coords(i, img.width, img.height);
                return Err(RemapError::DomainExhaustion { x, y });
            },
        }
        i = i + 1;
    }
    Ok(out)
}

/// The last pipeline stage: looks every manipulated perceptual value up in
/// the cache and reassembles an image of the given dimensions. Succeeds if
/// and only if every value has a cache entry — every returned pixel is the
/// color whose conversion produced exactly its value — and otherwise
/// reports the coordinates of the first value without one: the
/// manipulation left the enumerated gamut there.
pub fn perceptual_to_image(
    cache: &RoundTripCache,
    vals: &Vec<PerceptualBits>,
    width: u32,
    height: u32,
) -> (r: Result<ImageQ, RemapError>)
    requires
        cache.inv(),
        vals@.len() == width * height,
    ensures
        match r {
            Ok(img) => {
                &&& img.wf()
                &&& img.width == width
                &&& img.height == height
                &&& forall|i: int|
                    0 <= i < vals@.len() ==> cache.has_perceptual(#[trigger] vals@[i])
                        && img.pixels@[i] == cache.reverse@[vals@[i].spec_pack()] && perceptual_of(
                        img.pixels@[i],
                    ) == vals@[i]
            },
            Err(RemapError::DomainExhaustion { x, y }) => {
                &&& x < width
                &&& y < height
                &&& !cache.has_perceptual(vals@[y * width + x])
            },
        },
        r is Ok <==> forall|i: int|
            0 <= i < vals@.len() ==> cache.has_perceptual(#[trigger] vals@[i]),
{
    let n = vals.len();
    let mut out: Vec<RgbQ> = Vec::new();
    let mut i: usize = 0;
    while i < n
        invariant
            cache.inv(),
            n == vals@.len(),
            n == width * height,
            i <= n,
            out@.len() == i,
            forall|j: int|
                0 <= j < i ==> cache.has_perceptual(#[trigger] vals@[j]) && out@[j]
                    == cache.reverse@[vals@[j].spec_pack()] && perceptual_of(out@[j]) == vals@[j],
        decreases n - i,
    {
        match cache.perceptual_to_rgb_cached(vals[i]) {
            Some(c) => {
                out.push(c);
            },
            None => {
                let (x, y) = index_to_coords(i, width, height);
                return Err(RemapError::DomainExhaustion { x, y });
            },
        }
        i = i + 1;
    }
    Ok(ImageQ { width, height, pixels: out })
}

/// The first pipeline stage without the cache: converts every pixel with
/// the raw formulas. Total — the converter has no failure modes — but
/// trades away the cache's round-trip guarantee.
pub fn image_to_perceptual_direct(img: &ImageQ) -> (v: Vec<PerceptualBits>)
    ensures
        v@.len() == img.pixels@.len(),
        forall|i: int| 0 <= i < v@.len() ==> v@[i] == perceptual_of(#[trigger] img.pixels@[i]),
{
    let n = img.pixels.len();
    let mut out: Vec<PerceptualBits> = Vec::new();
    let mut i: usize = 0;
    while i < n
        invariant
            n == img.pixels@.len(),
            i <= n,
            out@.len() == i,
            forall|j: int| 0 <= j < i ==> out@[j] == perceptual_of(#[trigger] img.pixels@[j]),
        decreases n - i,
    {
        out.push(rgb_to_perceptual(img.pixels[i]));
        i = i + 1;
    }
    out
}

/// The last pipeline stage without the cache: converts every perceptual
/// value back with the raw formulas and reassembles an image. Total, but
/// quantizes afresh, so a value produced by manipulation need not land on
/// the color that would have produced it.
pub fn perceptual_to_image_direct(vals: &Vec<PerceptualBits>, width: u32, height: u32) -> (img:
    ImageQ)
    requires
        vals@.len() == width * height,
    ensures
        img.wf(),
        img.width == width,
        img.height == height,
        forall|i: int|
            0 <= i < vals@.len() ==> ((#[trigger] img.pixels@[i]).r, img.pixels@[i].g,
            img.pixels@[i].b) == srgb_of_oklab_bits(vals@[i].l, vals@[i].a, vals@[i].b),
{
    let n = vals.len();
    let mut out: Vec<RgbQ> = Vec::new();
    let mut i: usize = 0;
    while i < n
        invariant
            n == vals@.len(),
            i <= n,
            out@.len() == i,
            forall|j: int|
                0 <= j < i ==> ((#[trigger] out@[j]).r, out@[j].g, out@[j].b) == srgb_of_oklab_bits(
                    vals@[j].l,
                    vals@[j].a,
                    vals@[j].b,
                ),
        decreases n - i,
    {
        out.push(perceptual_to_rgb(vals[i]));
        i = i + 1;
    }
    ImageQ { width, height, pixels: out }
}

/// The full pipeline with the no-op manipulation. While the cache is
/// consistent and covers the image, the output equals the input pixel for
/// pixel — the round-trip identity the cache exists to guarantee —
/// and whatever comes back converts to the same perceptual values as the
/// input.
pub fn process_identity(cache: &RoundTripCache, img: &ImageQ) -> (r: Result<ImageQ, RemapError>)
    requires
        cache.inv(),
        img.wf(),
    ensures
        match r {
            Ok(out) => {
                &&& out.wf()
                &&& out.width == img.width
                &&& out.height == img.height
                &&& forall|i: int|
                    0 <= i < img.pixels@.len() ==> perceptual_of(#[trigger] out.pixels@[i])
                        == perceptual_of(img.pixels@[i])
            },
            Err(RemapError::DomainExhaustion { x, y }) => {
                &&& x < img.width
                &&& y < img.height
                &&& !cache.has_rgb(img.pixels@[y * img.width + x]) || !cache.has_perceptual(
                    perceptual_of(img.pixels@[y * img.width + x]),
                )
            },
        },
        r is Ok <==> forall|i: int|
            0 <= i < img.pixels@.len() ==> cache.has_rgb(#[trigger] img.pixels@[i])
                && cache.has_perceptual(perceptual_of(img.pixels@[i])),
        cache.consistent && (forall|i: int|
            0 <= i < img.pixels@.len() ==> cache.has_rgb(#[trigger] img.pixels@[i])) ==> match r {
            Ok(out) => out.pixels@ == img.pixels@,
            Err(e) => false,
        },
{
    let vals = match image_to_perceptual(cache, img) {
        Ok(v) => v,
        Err(e) => {
            proof {
                if forall|i: int|
                    0 <= i < img.pixels@.len() ==> cache.has_rgb(#[trigger] img.pixels@[i])
                        && cache.has_perceptual(perceptual_of(img.pixels@[i])) {
                    assert forall|i: int|
                        0 <= i < img.pixels@.len() implies cache.has_rgb(
                        #[trigger] img.pixels@[i],
                    ) by {}
                    assert(false);
                }
            }
            return Err(e);
        },
    };
    proof {
        if cache.consistent {
            assert forall|i: int|
                0 <= i < vals@.len() implies cache.has_perceptual(#[trigger] vals@[i])
                && cache.reverse@[vals@[i].spec_pack()] == img.pixels@[i] by {
                cache.lemma_round_trip_identity(img.pixels@[i]);
            }
        }
    }
    let r = perceptual_to_image(cache, &vals, img.width, img.height);
    proof {
        if cache.consistent {
            match &r {
                Ok(out) => {
                    assert(out.pixels@ =~= img.pixels@);
                },
                Err(e) => {},
            }
        }
        if r is Ok {
            assert forall|i: int|
                0 <= i < img.pixels@.len() implies cache.has_rgb(#[trigger] img.pixels@[i])
                && cache.has_perceptual(perceptual_of(img.pixels@[i])) by {
                assert(vals@[i] == perceptual_of(img.pixels@[i]));
                assert(cache.has_perceptual(vals@[i]));
            }
        } else {
            if forall|i: int|
                0 <= i < img.pixels@.len() ==> cache.has_rgb(#[trigger] img.pixels@[i])
                    && cache.has_perceptual(perceptual_of(img.pixels@[i])) {
                assert forall|i: int|
                    0 <= i < vals@.len() implies cache.has_perceptual(#[trigger] vals@[i]) by {
                    assert(vals@[i] == perceptual_of(img.pixels@[i]));
                    assert(cache.has_perceptual(perceptual_of(img.pixels@[i])));
                }
                assert(false);
            }
        }
        match &r {
            Ok(out) => {},
            Err(e) => {
                let ghost ee = *e;
                match ee {
                    RemapError::DomainExhaustion { x, y } => {
                        assert((y as int) * (img.width as int) + (x as int) < (img.width as int) * (
                        img.height as int)) by (nonlinear_arith)
                            requires
                                x < img.width,
                                y < img.height,
                        ;
                    },
                }
            },
        }
    }
    r
}

} // verus!
