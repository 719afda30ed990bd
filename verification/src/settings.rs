//! Shape parameters and part selection.

use crate::fixed::{fx_ok, FX_MAX};
use vstd::prelude::*;

verus! {

/// Upper bound of the stem half-widths: the fixed-point image of 0.3.
pub const STEM_W_MAX: i64 = 300_000;

/// Which anatomical part of the fern a generation call emits.
#[derive(Clone, Copy, Debug, PartialEq, Eq, Structural)]
pub enum FernPart {
    /// The tapering stem polygon plus one thin rib per leaflet segment.
    Stem,
    /// The upper row of leaflet shapes.
    LeafletTop,
    /// The lower row of leaflet shapes, mirrored from the upper row.
    LeafletBottom,
}

/// The one way a generation call can fail: a parameter outside its
/// documented range.
#[derive(Clone, Copy, Debug, PartialEq, Eq, Structural)]
pub enum FernError {
    /// A field of the settings record is outside its documented range.
    InvalidParameter,
}

/// Shape parameters for one fern.  All `i64` fields are fixed-point values
/// (see [`crate::fixed`]); the counts and the raster footprint are plain
/// integers.
#[derive(Clone, Copy, Debug, PartialEq, Eq, Structural)]
pub struct FernSettings {
    /// Stem half-width at the base, in `(0, 0.3]`.
    pub stem_w: i64,
    /// Stem half-width at the tip, in `(0, 0.3]`.
    pub stem_w2: i64,
    /// Number of leaflet placements along the stem, at least 2.
    pub leaflets1: u32,
    /// Number of segments per leaflet, at least 3; two fewer shapes than
    /// this are emitted per placement.
    pub leaflets2: u32,
    /// Spacing multiplier between leaflets along the stem, non-negative.
    pub leaflet_spacing: i64,
    /// Exponent controlling leaflet-length falloff along the stem,
    /// non-negative.
    pub leafshape_exp: i64,
    /// Per-segment sideways drift of the leaflet cursor; any sign.
    pub curvature: i64,
    /// Vertical bias of the leaflet control points; any sign.
    pub slant: i64,
    /// Leaflet-width scale factor, non-negative.
    pub thinning: i64,
    /// Horizontal bias of the first bezier control point, non-negative.
    pub stomp: i64,
    /// Base segment-length scale, non-negative.
    pub l0: i64,
    /// Target raster width in pixels, in `[8, 4096]`; used only by the
    /// finalization scale.
    pub width: u32,
    /// Target raster height in pixels, in `[8, 4096]`; used only by the
    /// finalization scale.
    pub height: u32,
}

impl FernSettings {
    /// Every field is inside its documented range.  Generation rejects a
    /// record that is not, before emitting any command.
    pub open spec fn valid(self) -> bool {
        &&& 0 < self.stem_w <= STEM_W_MAX
        &&& 0 < self.stem_w2 <= STEM_W_MAX
        &&& self.leaflets1 >= 2
        &&& self.leaflets2 >= 3
        &&& 0 <= self.leaflet_spacing <= FX_MAX
        &&& 0 <= self.leafshape_exp <= FX_MAX
        &&& fx_ok(self.curvature as int)
        &&& fx_ok(self.slant as int)
        &&& 0 <= self.thinning <= FX_MAX
        &&& 0 <= self.stomp <= FX_MAX
        &&& 0 <= self.l0 <= FX_MAX
        &&& 8 <= self.width <= 4096
        &&& 8 <= self.height <= 4096
    }

    /// Run-time check of [`FernSettings::valid`].
    pub fn check_valid(&self) -> (b: bool)
        ensures
            b == self.valid(),
    {
        0 < self.stem_w && self.stem_w <= STEM_W_MAX
            && 0 < self.stem_w2 && self.stem_w2 <= STEM_W_MAX
            && self.leaflets1 >= 2
            && self.leaflets2 >= 3
            && 0 <= self.leaflet_spacing && self.leaflet_spacing <= FX_MAX
            && 0 <= self.leafshape_exp && self.leafshape_exp <= FX_MAX
            && -FX_MAX <= self.curvature && self.curvature <= FX_MAX
            && -FX_MAX <= self.slant && self.slant <= FX_MAX
            && 0 <= self.thinning && self.thinning <= FX_MAX
            && 0 <= self.stomp && self.stomp <= FX_MAX
            && 0 <= self.l0 && self.l0 <= FX_MAX
            && 8 <= self.width && self.width <= 4096
            && 8 <= self.height && self.height <= 4096
    }
}

impl Default for FernSettings {
    /// The stock fern: a dense plant with 35 leaflet placements of 10
    /// segments each on a 512 by 512 footprint.
    fn default() -> (r: FernSettings)
        ensures
            r == (FernSettings {
                stem_w: 80_000,
                stem_w2: 8_000,
                leaflets1: 35,
                leaflets2: 10,
                leaflet_spacing: 1_600_000,
                leafshape_exp: 1_500_000,
                curvature: 14_000,
                slant: 2_000_000,
                thinning: 500_000,
                stomp: 1_400_000,
                l0: 52_100,
                width: 512,
                height: 512,
            }),
            r.valid(),
    {
        FernSettings {
            stem_w: 80_000,
            stem_w2: 8_000,
            leaflets1: 35,
            leaflets2: 10,
            leaflet_spacing: 1_600_000,
            leafshape_exp: 1_500_000,
            curvature: 14_000,
            slant: 2_000_000,
            thinning: 500_000,
            stomp: 1_400_000,
            l0: 52_100,
            width: 512,
            height: 512,
        }
    }
}

} // verus!
