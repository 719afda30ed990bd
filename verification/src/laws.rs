//! The stated laws of the generator.
//!
//! Each proof function here writes down one property of the emitted
//! geometry, over the spec-level model that the executable functions are
//! proved to match exactly.

use crate::fern::{
    bezier_leaf, fern_cmds, finalize_pt, leaflet_cmds, placements_from, seg_cmds, segs_from,
    stem_head, stem_outline, PX_START,
};
use crate::fixed::{
    abs_i, fx_add, fx_mul, fx_ok, fx_sub, lemma_fx_mul_le_left, lemma_fx_mul_mag,
    lemma_fx_mul_neg_left, FX_HALF, FX_ONE,
};
use crate::path::{closed_count, pt_s, PathCmd, Point};
use crate::settings::{FernPart, FernSettings};
use vstd::arithmetic::div_mod::{
    lemma_div_by_multiple, lemma_div_of0, lemma_div_pos_is_pos, lemma_multiply_divide_lt,
};
use vstd::arithmetic::mul::{lemma_mul_inequality, lemma_mul_strict_inequality};
use vstd::prelude::*;

verus! {

/// Determinism: generation is a pure function of the settings record and
/// the part selector; any two command sequences produced for the same
/// inputs are identical.
pub proof fn lemma_deterministic(
    s: FernSettings,
    part: FernPart,
    p1: Seq<PathCmd>,
    p2: Seq<PathCmd>,
)
    requires
        p1 == fern_cmds(s, part),
        p2 == fern_cmds(s, part),
    ensures
        p1 == p2,
{
}

/// Stem shape: for any valid settings record, the stem path opens with the
/// closed four-vertex taper outline — beginning at `(0, stem_w)` — before
/// any rib is emitted.
pub proof fn lemma_stem_shape(s: FernSettings)
    requires
        s.valid(),
    ensures
        fern_cmds(s, FernPart::Stem).len() >= 5,
        fern_cmds(s, FernPart::Stem)[0] == (PathCmd::Begin { at: pt_s(0, s.stem_w as int) }),
        fern_cmds(s, FernPart::Stem)[1] == (PathCmd::LineTo {
            to: pt_s(FX_ONE as int, s.stem_w2 as int),
        }),
        fern_cmds(s, FernPart::Stem)[2] == (PathCmd::LineTo {
            to: pt_s(FX_ONE as int, -(s.stem_w2 as int)),
        }),
        fern_cmds(s, FernPart::Stem)[3] == (PathCmd::LineTo { to: pt_s(0, -(s.stem_w as int)) }),
        fern_cmds(s, FernPart::Stem)[4] == PathCmd::Close,
{
    let head = stem_head(s, FernPart::Stem);
    let tail = placements_from(s, FernPart::Stem, 0, PX_START as int);
    let whole = fern_cmds(s, FernPart::Stem);
    assert(whole == head + tail);
    assert(head == stem_outline(s));
    assert(head.len() == 5);
    assert forall|k: int| 0 <= k < 5 implies whole[k] == head[k] by {}
}

/// Appending command sequences adds their closed-contour counts.
pub proof fn lemma_closed_count_add(a: Seq<PathCmd>, b: Seq<PathCmd>)
    ensures
        closed_count(a + b) == closed_count(a) + closed_count(b),
    decreases b.len(),
{
    if b.len() == 0 {
        assert(a + b =~= a);
    } else {
        lemma_closed_count_add(a, b.drop_last());
        assert((a + b).drop_last() =~= a + b.drop_last());
        assert((a + b).last() == b.last());
    }
}

/// A sequence without a close command has no closed contour.
pub proof fn lemma_closed_count_none(cs: Seq<PathCmd>)
    requires
        forall|k: int| 0 <= k < cs.len() ==> !(#[trigger] cs[k] is Close),
    ensures
        closed_count(cs) == 0,
    decreases cs.len(),
{
    if cs.len() > 0 {
        lemma_closed_count_none(cs.drop_last());
    }
}

/// A sequence whose only close command stands at the end holds exactly one
/// closed contour.
pub proof fn lemma_closed_count_one(cs: Seq<PathCmd>)
    requires
        cs.len() > 0,
        cs.last() is Close,
        forall|k: int| 0 <= k < cs.len() - 1 ==> !(#[trigger] cs[k] is Close),
    ensures
        closed_count(cs) == 1,
{
    lemma_closed_count_none(cs.drop_last());
}

/// Every leaflet segment emits exactly one closed contour, whichever part
/// is generated.
pub proof fn lemma_seg_closed(
    cx: int,
    cy: int,
    curve: int,
    a: int,
    l: int,
    s: FernSettings,
    part: FernPart,
)
    ensures
        closed_count(seg_cmds(cx, cy, curve, a, l, s, part)) == 1,
{
    let cs = seg_cmds(cx, cy, curve, a, l, s, part);
    lemma_closed_count_one(cs);
}

/// A segment run from `j` emits one closed contour per remaining segment.
pub proof fn lemma_segs_from_closed(
    cx: int,
    cy: int,
    j: nat,
    a0: int,
    len: int,
    curve: int,
    odd: bool,
    s: FernSettings,
    part: FernPart,
)
    ensures
        closed_count(segs_from(cx, cy, j, a0, len, curve, odd, s, part)) == if j + 2
            >= s.leaflets2 {
            0int
        } else {
            s.leaflets2 - 2 - j
        },
    decreases s.leaflets2 - 2 - j,
{
    if j + 2 < s.leaflets2 {
        let sp = fx_sub(FX_ONE as int, j as int * FX_ONE as int / (s.leaflets2 as int));
        let l = fx_mul(fx_mul(s.l0 as int, sp), len);
        let amag = fx_mul(a0, sp);
        let a = if odd {
            amag
        } else {
            -amag
        };
        lemma_seg_closed(cx, cy, curve, a, l, s, part);
        lemma_segs_from_closed(
            fx_add(cx, curve),
            fx_add(cy, a),
            j + 1,
            a0,
            len,
            curve,
            odd,
            s,
            part,
        );
        lemma_closed_count_add(
            seg_cmds(cx, cy, curve, a, l, s, part),
            segs_from(fx_add(cx, curve), fx_add(cy, a), j + 1, a0, len, curve, odd, s, part),
        );
    }
}

/// Segment count: one leaflet placement emits exactly `leaflets2 - 2`
/// closed contours — two fewer than the segment parameter.
pub proof fn lemma_leaflet_segment_count(
    sx: int,
    sy: int,
    len: int,
    curve: int,
    odd: bool,
    s: FernSettings,
    part: FernPart,
)
    requires
        s.leaflets2 >= 3,
    ensures
        closed_count(leaflet_cmds(sx, sy, len, curve, odd, s, part)) == s.leaflets2 - 2,
{
    lemma_segs_from_closed(
        sx,
        sy,
        0,
        (2 * len) / (s.leaflets2 as int + 1),
        len,
        curve,
        odd,
        s,
        part,
    );
}

/// A placement run from `i` emits `leaflets2 - 2` closed contours per
/// remaining placement, wherever it is anchored.
pub proof fn lemma_placements_closed(s: FernSettings, part: FernPart, i: nat, px: int)
    requires
        s.leaflets2 >= 3,
    ensures
        closed_count(placements_from(s, part, i, px)) == if i >= s.leaflets1 {
            0int
        } else {
            (s.leaflets1 - i) * (s.leaflets2 - 2)
        },
    decreases s.leaflets1 - i,
{
    if i < s.leaflets1 {
        let prog = i as int * FX_ONE as int / (s.leaflets1 as int);
        let len = fx_sub(FX_ONE as int, crate::fixed::fx_pow(prog, s.leafshape_exp as int));
        let odd = i % 2 == 1;
        let curve = fx_mul(
            s.curvature as int,
            fx_sub(FX_ONE as int, fx_mul(FX_HALF as int, prog)),
        );
        let edge = fx_add(
            fx_mul(s.stem_w as int, fx_sub(FX_ONE as int, prog)),
            fx_mul(s.stem_w2 as int, prog),
        );
        let sy = if odd {
            edge
        } else {
            -edge
        };
        let px2 = fx_add(
            px,
            fx_mul(fx_mul(fx_mul(s.l0 as int, len), s.leaflet_spacing as int), FX_HALF as int),
        );
        let head = leaflet_cmds(px, sy, len, curve, odd, s, part);
        let tail = placements_from(s, part, i + 1, px2);
        assert(placements_from(s, part, i, px) == head + tail);
        lemma_leaflet_segment_count(px, sy, len, curve, odd, s, part);
        lemma_placements_closed(s, part, i + 1, px2);
        lemma_closed_count_add(head, tail);
        if i + 1 >= s.leaflets1 {
            assert((s.leaflets1 - i) * (s.leaflets2 - 2) == s.leaflets2 - 2) by (nonlinear_arith)
                requires
                    s.leaflets1 - i == 1,
            ;
        } else {
            assert((s.leaflets1 - i) * (s.leaflets2 - 2) == (s.leaflets2 - 2) + (s.leaflets1 - i
                - 1) * (s.leaflets2 - 2)) by (nonlinear_arith);
        }
    }
}

/// Leaflet count: a leaflet part emits `leaflets1` placements of
/// `leaflets2 - 2` closed contours each; the number of placements does not
/// depend on `leaflets2`.
pub proof fn lemma_leaflet_count(s: FernSettings, part: FernPart)
    requires
        s.valid(),
        part != FernPart::Stem,
    ensures
        closed_count(fern_cmds(s, part)) == s.leaflets1 * (s.leaflets2 - 2),
{
    lemma_placements_closed(s, part, 0, PX_START as int);
    assert(stem_head(s, part) =~= Seq::<PathCmd>::empty());
    lemma_closed_count_add(stem_head(s, part), placements_from(s, part, 0, PX_START as int));
}

/// The stem part emits its taper outline plus one rib per leaflet segment.
pub proof fn lemma_stem_count(s: FernSettings)
    requires
        s.valid(),
    ensures
        closed_count(fern_cmds(s, FernPart::Stem)) == 1 + s.leaflets1 * (s.leaflets2 - 2),
{
    let part = FernPart::Stem;
    lemma_placements_closed(s, part, 0, PX_START as int);
    lemma_closed_count_add(stem_head(s, part), placements_from(s, part, 0, PX_START as int));
    lemma_closed_count_one(stem_outline(s));
}

/// `q` is the reflection of `p` about the vertical line `x == m`, at the
/// same height.
pub open spec fn mirror_about(m: int, p: Point, q: Point) -> bool {
    q.y == p.y && p.x as int + q.x as int == 2 * m
}

/// The two commands draw mirror images of one another about `x == m`.
pub open spec fn mirror_cmd_about(m: int, c: PathCmd, d: PathCmd) -> bool {
    match (c, d) {
        (PathCmd::Begin { at: p }, PathCmd::Begin { at: q }) => mirror_about(m, p, q),
        (PathCmd::LineTo { to: p }, PathCmd::LineTo { to: q }) => mirror_about(m, p, q),
        (PathCmd::QuadTo { ctrl: p1, to: p2 }, PathCmd::QuadTo { ctrl: q1, to: q2 }) =>
            mirror_about(m, p1, q1) && mirror_about(m, p2, q2),
        (PathCmd::Close, PathCmd::Close) => true,
        _ => false,
    }
}

proof fn lemma_segs_mirror(cx: int, cy: int, j: nat, a0: int, len: int, odd: bool, s: FernSettings)
    requires
        s.valid(),
        s.slant == 0,
        s.l0 <= 10_000_000,
        s.stomp <= 10_000_000,
        abs_i(cx) <= 1_000_000_000_000,
        fx_ok(cy),
        0 <= len <= FX_ONE as int,
    ensures
        segs_from(cx, cy, j, a0, len, 0, odd, s, FernPart::LeafletBottom).len() == segs_from(
            cx,
            cy,
            j,
            a0,
            len,
            0,
            odd,
            s,
            FernPart::LeafletTop,
        ).len(),
        forall|k: int|
            0 <= k < segs_from(cx, cy, j, a0, len, 0, odd, s, FernPart::LeafletTop).len()
                ==> mirror_cmd_about(
                cx,
                #[trigger] segs_from(cx, cy, j, a0, len, 0, odd, s, FernPart::LeafletTop)[k],
                segs_from(cx, cy, j, a0, len, 0, odd, s, FernPart::LeafletBottom)[k],
            ),
    decreases s.leaflets2 - 2 - j,
{
    let top = segs_from(cx, cy, j, a0, len, 0, odd, s, FernPart::LeafletTop);
    let bot = segs_from(cx, cy, j, a0, len, 0, odd, s, FernPart::LeafletBottom);
    if j + 2 < s.leaflets2 {
        let q = j as int * FX_ONE as int / (s.leaflets2 as int);
        lemma_div_pos_is_pos(j as int * FX_ONE as int, s.leaflets2 as int);
        lemma_mul_strict_inequality(j as int, s.leaflets2 as int, FX_ONE as int);
        lemma_multiply_divide_lt(j as int * FX_ONE as int, s.leaflets2 as int, FX_ONE as int);
        let sp = fx_sub(FX_ONE as int, q);
        assert(0 <= sp <= FX_ONE as int);
        let l = fx_mul(fx_mul(s.l0 as int, sp), len);
        lemma_fx_mul_le_left(s.l0 as int, sp);
        lemma_fx_mul_le_left(fx_mul(s.l0 as int, sp), len);
        assert(0 <= l <= 10_000_000);
        let v1 = fx_mul(l, s.stomp as int);
        lemma_fx_mul_mag(l, s.stomp as int, 10_000_000, 10_000_000);
        assert(abs_i(v1) <= 100_000_000);
        lemma_fx_mul_neg_left(l, s.stomp as int);
        let amag = fx_mul(a0, sp);
        let a = if odd {
            amag
        } else {
            -amag
        };
        let nx = fx_add(cx, 0);
        assert(nx == cx);
        let ny = fx_add(cy, a);
        assert(fx_ok(ny));
        let toph = seg_cmds(cx, cy, 0, a, l, s, FernPart::LeafletTop);
        let both = seg_cmds(cx, cy, 0, a, l, s, FernPart::LeafletBottom);
        assert(toph == bezier_leaf(cx, cy, nx, ny, a, l, s));
        assert(both == bezier_leaf(cx, cy, nx, ny, a, -l, s));
        assert(fx_add(cx, v1) == cx + v1);
        assert(fx_mul(-l, s.stomp as int) == -v1);
        assert(fx_add(cx, -v1) == cx - v1);
        assert(fx_add(cx, l) == cx + l);
        assert(fx_add(cx, -l) == cx - l);
        assert(toph.len() == 4 && both.len() == 4);
        assert forall|k: int| 0 <= k < 4 implies mirror_cmd_about(cx, toph[k], both[k]) by {
            assert(toph[0] == (PathCmd::Begin { at: pt_s(cx, cy) }));
            assert(both[0] == (PathCmd::Begin { at: pt_s(cx, cy) }));
            assert(toph[3] is Close && both[3] is Close);
        }
        let cy2 = fx_add(cy, a);
        lemma_segs_mirror(cx, cy2, j + 1, a0, len, odd, s);
        let topt = segs_from(cx, cy2, j + 1, a0, len, 0, odd, s, FernPart::LeafletTop);
        let bott = segs_from(cx, cy2, j + 1, a0, len, 0, odd, s, FernPart::LeafletBottom);
        assert(top == toph + topt);
        assert(bot == both + bott);
        assert forall|k: int| 0 <= k < top.len() implies mirror_cmd_about(cx, top[k], bot[k]) by {
            if k < 4 {
                assert(top[k] == toph[k] && bot[k] == both[k]);
            } else {
                assert(top[k] == topt[k - 4] && bot[k] == bott[k - 4]);
            }
        }
    }
}

/// Mirror symmetry: with no slant and no sideways drift, the lower-leaflet
/// placement is, command for command, the reflection of the upper-leaflet
/// placement about the vertical line through its anchor.  (A nonzero drift
/// shifts the shared segment endpoints of both rows the same way, which
/// breaks the exact reflection, so the drift is pinned to zero here.)
pub proof fn lemma_leaflet_mirror(sx: int, sy: int, len: int, odd: bool, s: FernSettings)
    requires
        s.valid(),
        s.slant == 0,
        s.l0 <= 10_000_000,
        s.stomp <= 10_000_000,
        abs_i(sx) <= 1_000_000_000_000,
        fx_ok(sy),
        0 <= len <= FX_ONE as int,
    ensures
        leaflet_cmds(sx, sy, len, 0, odd, s, FernPart::LeafletBottom).len() == leaflet_cmds(
            sx,
            sy,
            len,
            0,
            odd,
            s,
            FernPart::LeafletTop,
        ).len(),
        forall|k: int|
            0 <= k < leaflet_cmds(sx, sy, len, 0, odd, s, FernPart::LeafletTop).len()
                ==> mirror_cmd_about(
                sx,
                #[trigger] leaflet_cmds(sx, sy, len, 0, odd, s, FernPart::LeafletTop)[k],
                leaflet_cmds(sx, sy, len, 0, odd, s, FernPart::LeafletBottom)[k],
            ),
{
    lemma_segs_mirror(sx, sy, 0, (2 * len) / (s.leaflets2 as int + 1), len, odd, s);
}

/// Finalization bounding box: a point of the centered local frame — `x` in
/// `[-1/2, 1/2]`, `y` in `[-1, 1]` — lands inside `[0, width]` by
/// `[-height/2, height/2]`, in fixed-point pixel units.
pub proof fn lemma_finalize_box(p: Point, w: u32, h: u32)
    requires
        8 <= w <= 4096,
        8 <= h <= 4096,
        -(FX_HALF as int) <= p.x as int <= FX_HALF as int,
        -(FX_ONE as int) <= p.y as int <= FX_ONE as int,
    ensures
        0 <= finalize_pt(p, w, h).x as int <= w as int * FX_ONE as int,
        abs_i(finalize_pt(p, w, h).y as int) <= h as int * FX_ONE as int / 2,
{
    let sw = w as int * FX_ONE as int;
    let sh = h as int * FX_ONE as int / 2;
    lemma_mul_inequality(w as int, 4096, FX_ONE as int);
    lemma_mul_inequality(8, w as int, FX_ONE as int);
    lemma_mul_inequality(h as int, 4096, FX_ONE as int);
    lemma_mul_inequality(8, h as int, FX_ONE as int);
    let u = fx_add(p.x as int, FX_HALF as int);
    assert(0 <= u <= FX_ONE as int);
    lemma_fx_mul_mag(u, sw, FX_ONE as int, sw);
    vstd::arithmetic::mul::lemma_mul_is_commutative(FX_ONE as int, sw);
    lemma_div_by_multiple(sw, FX_ONE as int);
    assert(abs_i(fx_mul(u, sw)) <= sw);
    assert(fx_mul(u, sw) >= 0);
    lemma_fx_mul_mag(p.y as int, sh, FX_ONE as int, sh);
    vstd::arithmetic::mul::lemma_mul_is_commutative(FX_ONE as int, sh);
    lemma_div_by_multiple(sh, FX_ONE as int);
    assert(abs_i(fx_mul(p.y as int, sh)) <= sh);
}

/// Finalization corners are exact: the edges of the centered local frame
/// map onto the edges of the raster footprint.
pub proof fn lemma_finalize_corners(w: u32, h: u32, x: int, y: int)
    requires
        8 <= w <= 4096,
        8 <= h <= 4096,
        fx_ok(x),
        fx_ok(y),
        -(FX_HALF as int) <= x <= FX_HALF as int,
    ensures
        finalize_pt(pt_s(-(FX_HALF as int), y), w, h).x == 0,
        finalize_pt(pt_s(FX_HALF as int, y), w, h).x as int == w as int * FX_ONE as int,
        finalize_pt(pt_s(x, FX_ONE as int), w, h).y as int == h as int * FX_ONE as int / 2,
        finalize_pt(pt_s(x, -(FX_ONE as int)), w, h).y as int == -(h as int * FX_ONE as int
            / 2),
{
    let sw = w as int * FX_ONE as int;
    let sh = h as int * FX_ONE as int / 2;
    lemma_mul_inequality(w as int, 4096, FX_ONE as int);
    lemma_mul_inequality(8, w as int, FX_ONE as int);
    lemma_mul_inequality(h as int, 4096, FX_ONE as int);
    lemma_mul_inequality(8, h as int, FX_ONE as int);
    assert(fx_add(-(FX_HALF as int), FX_HALF as int) == 0);
    lemma_div_of0(FX_ONE as int);
    vstd::arithmetic::mul::lemma_mul_basics(abs_i(sw));
    assert(fx_mul(0, sw) == 0);
    assert(fx_add(FX_HALF as int, FX_HALF as int) == FX_ONE as int);
    vstd::arithmetic::mul::lemma_mul_is_commutative(FX_ONE as int, sw);
    lemma_div_by_multiple(sw, FX_ONE as int);
    assert(fx_mul(FX_ONE as int, sw) == sw);
    vstd::arithmetic::mul::lemma_mul_is_commutative(FX_ONE as int, sh);
    lemma_div_by_multiple(sh, FX_ONE as int);
    assert(fx_mul(FX_ONE as int, sh) == sh);
    lemma_fx_mul_neg_left(FX_ONE as int, sh);
    assert(fx_mul(-(FX_ONE as int), sh) == -sh);
}

} // verus!
