//! The fern geometry generator.
//!
//! One call emits the path for one anatomical part, working in a local frame
//! where the stem runs from `x = 0` to `x = 1` (in fixed-point units).  A
//! tapering four-vertex outline is emitted for the stem; along the stem,
//! leaflet placements alternate sides, and each placement walks a cursor
//! through its segments, emitting one closed shape per segment: a two-bezier
//! leaf for the leaflet parts, a thin rib for the stem part.
//!
//! Two stepping rules are natural for the leaflet cursor: a rotating local
//! frame, or a fixed frame with a sideways drift per segment.  This
//! generator commits to the fixed frame: each segment translates the cursor
//! by `(curve, a)`, and the lower leaflet mirrors the upper one by negating
//! the reach `l`.  Everything is specified exactly: the emitted command
//! sequence equals the spec-level [`fern_cmds`] model, command for command.

use crate::fixed::{
    fadd, fdiv_n, fmul, fpow, frac_of, fsub, fx_add, fx_mul, fx_ok, fx_pow, fx_sub, FX_HALF,
    FX_ONE,
};
use crate::path::{cmd_ok, pt_s, FernPath, PathCmd, Point};
use crate::settings::{FernError, FernPart, FernSettings};
use vstd::prelude::*;

verus! {

/// Half-width of the thin rib emitted per segment for the stem part: 0.0015.
pub const STEMLET_W: i64 = 1_500;

/// Position of the first leaflet placement along the stem: 0.1.
pub const PX_START: i64 = 100_000;

/// The tapering stem outline: a closed quadrilateral from the base
/// half-width down to the tip half-width.
pub open spec fn stem_outline(s: FernSettings) -> Seq<PathCmd> {
    seq![
        PathCmd::Begin { at: pt_s(0, s.stem_w as int) },
        PathCmd::LineTo { to: pt_s(FX_ONE as int, s.stem_w2 as int) },
        PathCmd::LineTo { to: pt_s(FX_ONE as int, -(s.stem_w2 as int)) },
        PathCmd::LineTo { to: pt_s(0, -(s.stem_w as int)) },
        PathCmd::Close,
    ]
}

/// One closed leaf shape: from the cursor, a quadratic bezier out to the
/// tip of the reach `l`, and a second one back to the next cursor position.
/// The vertical extents are scaled by `thinning` and biased by `slant`.
pub open spec fn bezier_leaf(
    cx: int,
    cy: int,
    nx: int,
    ny: int,
    a: int,
    l: int,
    s: FernSettings,
) -> Seq<PathCmd> {
    let ta = fx_mul(s.thinning as int, a);
    let y1 = fx_mul(ta, fx_sub(s.slant as int, FX_HALF as int));
    let y2 = fx_mul(ta, fx_add(s.slant as int, FX_HALF as int));
    let y3 = fx_mul(ta, fx_add(s.slant as int, FX_ONE as int));
    seq![
        PathCmd::Begin { at: pt_s(cx, cy) },
        PathCmd::QuadTo {
            ctrl: pt_s(fx_add(cx, fx_mul(l, s.stomp as int)), fx_add(cy, y1)),
            to: pt_s(fx_add(cx, l), fx_add(cy, y2)),
        },
        PathCmd::QuadTo {
            ctrl: pt_s(fx_add(cx, l), fx_add(cy, y3)),
            to: pt_s(nx, ny),
        },
        PathCmd::Close,
    ]
}

/// The commands of one leaflet segment: the cursor stands at `(cx, cy)` and
/// moves to `(cx + curve, cy + a)`.  The leaflet parts emit a leaf shape with
/// reach `l` (upper) or `-l` (lower); the stem part emits a thin closed rib
/// along the cursor step.
pub open spec fn seg_cmds(
    cx: int,
    cy: int,
    curve: int,
    a: int,
    l: int,
    s: FernSettings,
    part: FernPart,
) -> Seq<PathCmd> {
    let nx = fx_add(cx, curve);
    let ny = fx_add(cy, a);
    match part {
        FernPart::Stem => seq![
            PathCmd::Begin { at: pt_s(fx_add(cx, STEMLET_W as int), cy) },
            PathCmd::LineTo { to: pt_s(fx_add(nx, STEMLET_W as int), ny) },
            PathCmd::LineTo { to: pt_s(fx_sub(nx, STEMLET_W as int), ny) },
            PathCmd::LineTo { to: pt_s(fx_sub(cx, STEMLET_W as int), cy) },
            PathCmd::Close,
        ],
        FernPart::LeafletTop => bezier_leaf(cx, cy, nx, ny, a, l, s),
        FernPart::LeafletBottom => bezier_leaf(cx, cy, nx, ny, a, -l, s),
    }
}

/// Every coordinate a segment emits is in range when its inputs are.
pub proof fn lemma_seg_cmds_ok(
    cx: int,
    cy: int,
    curve: int,
    a: int,
    l: int,
    s: FernSettings,
    part: FernPart,
)
    requires
        fx_ok(cx),
        fx_ok(cy),
        fx_ok(curve),
        fx_ok(a),
        fx_ok(l),
    ensures
        forall|k: int|
            0 <= k < seg_cmds(cx, cy, curve, a, l, s, part).len() ==> cmd_ok(
                #[trigger] seg_cmds(cx, cy, curve, a, l, s, part)[k],
            ),
{
    let cs = seg_cmds(cx, cy, curve, a, l, s, part);
    assert forall|k: int| 0 <= k < cs.len() implies cmd_ok(cs[k]) by {
        let nx = fx_add(cx, curve);
        let ny = fx_add(cy, a);
        assert(fx_ok(nx) && fx_ok(ny));
    }
}

/// Emit one closed leaf shape (see [`bezier_leaf`]).
fn emit_bezier_leaf(
    cmds: &mut Vec<PathCmd>,
    cx: i64,
    cy: i64,
    nx: i64,
    ny: i64,
    a: i64,
    l: i64,
    s: &FernSettings,
)
    requires
        fx_ok(cx as int),
        fx_ok(cy as int),
        fx_ok(nx as int),
        fx_ok(ny as int),
        fx_ok(a as int),
        fx_ok(l as int),
        s.valid(),
    ensures
        final(cmds)@ == old(cmds)@ + bezier_leaf(
            cx as int,
            cy as int,
            nx as int,
            ny as int,
            a as int,
            l as int,
            *s,
        ),
{
    let ta = fmul(s.thinning, a);
    let y1 = fmul(ta, fsub(s.slant, FX_HALF));
    let y2 = fmul(ta, fadd(s.slant, FX_HALF));
    let y3 = fmul(ta, fadd(s.slant, FX_ONE));
    let xs = fadd(cx, fmul(l, s.stomp));
    let xl = fadd(cx, l);
    cmds.push(PathCmd::Begin { at: Point { x: cx, y: cy } });
    cmds.push(PathCmd::QuadTo {
        ctrl: Point { x: xs, y: fadd(cy, y1) },
        to: Point { x: xl, y: fadd(cy, y2) },
    });
    cmds.push(PathCmd::QuadTo {
        ctrl: Point { x: xl, y: fadd(cy, y3) },
        to: Point { x: nx, y: ny },
    });
    cmds.push(PathCmd::Close);
    proof {
        assert(cmds@ =~= old(cmds)@ + bezier_leaf(
            cx as int,
            cy as int,
            nx as int,
            ny as int,
            a as int,
            l as int,
            *s,
        ));
    }
}

/// Emit the commands of one leaflet segment (see [`seg_cmds`]).
fn emit_seg(
    cmds: &mut Vec<PathCmd>,
    cx: i64,
    cy: i64,
    curve: i64,
    a: i64,
    l: i64,
    s: &FernSettings,
    part: FernPart,
)
    requires
        fx_ok(cx as int),
        fx_ok(cy as int),
        fx_ok(curve as int),
        fx_ok(a as int),
        fx_ok(l as int),
        s.valid(),
    ensures
        final(cmds)@ == old(cmds)@ + seg_cmds(
            cx as int,
            cy as int,
            curve as int,
            a as int,
            l as int,
            *s,
            part,
        ),
{
    let nx = fadd(cx, curve);
    let ny = fadd(cy, a);
    match part {
        FernPart::Stem => {
            cmds.push(PathCmd::Begin { at: Point { x: fadd(cx, STEMLET_W), y: cy } });
            cmds.push(PathCmd::LineTo { to: Point { x: fadd(nx, STEMLET_W), y: ny } });
            cmds.push(PathCmd::LineTo { to: Point { x: fsub(nx, STEMLET_W), y: ny } });
            cmds.push(PathCmd::LineTo { to: Point { x: fsub(cx, STEMLET_W), y: cy } });
            cmds.push(PathCmd::Close);
            proof {
                assert(cmds@ =~= old(cmds)@ + seg_cmds(
                    cx as int,
                    cy as int,
                    curve as int,
                    a as int,
                    l as int,
                    *s,
                    part,
                ));
            }
        },
        FernPart::LeafletTop => {
            emit_bezier_leaf(cmds, cx, cy, nx, ny, a, l, s);
        },
        FernPart::LeafletBottom => {
            emit_bezier_leaf(cmds, cx, cy, nx, ny, a, -l, s);
        },
    }
}

/// The segments of one leaflet placement from segment `j` on.  Each segment
/// scales length and sideways reach by the decreasing weight
/// `1 - j / leaflets2`, emits its commands, and steps the cursor by
/// `(curve, a)`; `odd` picks the side of the stem.
pub open spec fn segs_from(
    cx: int,
    cy: int,
    j: nat,
    a0: int,
    len: int,
    curve: int,
    odd: bool,
    s: FernSettings,
    part: FernPart,
) -> Seq<PathCmd>
    decreases s.leaflets2 - 2 - j,
{
    if j + 2 >= s.leaflets2 {
        Seq::empty()
    } else {
        let sp = fx_sub(FX_ONE as int, j as int * FX_ONE as int / (s.leaflets2 as int));
        let l = fx_mul(fx_mul(s.l0 as int, sp), len);
        let amag = fx_mul(a0, sp);
        let a = if odd {
            amag
        } else {
            -amag
        };
        seg_cmds(cx, cy, curve, a, l, s, part) + segs_from(
            fx_add(cx, curve),
            fx_add(cy, a),
            j + 1,
            a0,
            len,
            curve,
            odd,
            s,
            part,
        )
    }
}

/// The command sequence of one whole leaflet placement anchored at
/// `(sx, sy)`: `leaflets2 - 2` segments, whose base sideways reach divides
/// the leaflet length by half the segment count.
pub open spec fn leaflet_cmds(
    sx: int,
    sy: int,
    len: int,
    curve: int,
    odd: bool,
    s: FernSettings,
    part: FernPart,
) -> Seq<PathCmd> {
    segs_from(sx, sy, 0, (2 * len) / (s.leaflets2 as int + 1), len, curve, odd, s, part)
}

/// Every coordinate a segment run emits is in range.
pub proof fn lemma_segs_from_ok(
    cx: int,
    cy: int,
    j: nat,
    a0: int,
    len: int,
    curve: int,
    odd: bool,
    s: FernSettings,
    part: FernPart,
)
    requires
        fx_ok(cx),
        fx_ok(cy),
        fx_ok(curve),
    ensures
        forall|k: int|
            0 <= k < segs_from(cx, cy, j, a0, len, curve, odd, s, part).len() ==> cmd_ok(
                #[trigger] segs_from(cx, cy, j, a0, len, curve, odd, s, part)[k],
            ),
    decreases s.leaflets2 - 2 - j,
{
    if j + 2 < s.leaflets2 {
        let sp = fx_sub(FX_ONE as int, j as int * FX_ONE as int / (s.leaflets2 as int));
        let l = fx_mul(fx_mul(s.l0 as int, sp), len);
        let amag = fx_mul(a0, sp);
        let a = if odd {
            amag
        } else {
            -amag
        };
        lemma_seg_cmds_ok(cx, cy, curve, a, l, s, part);
        lemma_segs_from_ok(fx_add(cx, curve), fx_add(cy, a), j + 1, a0, len, curve, odd, s, part);
        let head = seg_cmds(cx, cy, curve, a, l, s, part);
        let tail = segs_from(fx_add(cx, curve), fx_add(cy, a), j + 1, a0, len, curve, odd, s, part);
        let whole = segs_from(cx, cy, j, a0, len, curve, odd, s, part);
        assert(whole == head + tail);
        assert forall|k: int| 0 <= k < whole.len() implies cmd_ok(whole[k]) by {
            if k < head.len() {
                assert(whole[k] == head[k]);
            } else {
                assert(whole[k] == tail[k - head.len()]);
            }
        }
    }
}

/// Emit one whole leaflet placement (see [`leaflet_cmds`]).
pub fn emit_leaflet(
    cmds: &mut Vec<PathCmd>,
    sx: i64,
    sy: i64,
    len: i64,
    curve: i64,
    odd: bool,
    s: &FernSettings,
    part: FernPart,
)
    requires
        fx_ok(sx as int),
        fx_ok(sy as int),
        0 <= len <= FX_ONE,
        fx_ok(curve as int),
        s.valid(),
    ensures
        final(cmds)@ == old(cmds)@ + leaflet_cmds(
            sx as int,
            sy as int,
            len as int,
            curve as int,
            odd,
            *s,
            part,
        ),
{
    let ghost full = leaflet_cmds(sx as int, sy as int, len as int, curve as int, odd, *s, part);
    let a0: i64 = fdiv_n(2 * len, (s.leaflets2 as i64) + 1);
    let mut cx: i64 = sx;
    let mut cy: i64 = sy;
    let mut j: u32 = 0;
    let segs: u32 = s.leaflets2 - 2;
    while j < segs
        invariant
            j <= segs,
            segs == s.leaflets2 - 2,
            s.valid(),
            0 <= len <= FX_ONE,
            fx_ok(curve as int),
            fx_ok(cx as int),
            fx_ok(cy as int),
            fx_ok(a0 as int),
            a0 as int == (2 * len as int) / (s.leaflets2 as int + 1),
            full == leaflet_cmds(sx as int, sy as int, len as int, curve as int, odd, *s, part),
            old(cmds)@ + full == cmds@ + segs_from(
                cx as int,
                cy as int,
                j as nat,
                a0 as int,
                len as int,
                curve as int,
                odd,
                *s,
                part,
            ),
        decreases segs - j,
    {
        let sp = fsub(FX_ONE, frac_of(j, s.leaflets2));
        let l = fmul(fmul(s.l0, sp), len);
        let amag = fmul(a0, sp);
        let a = if odd {
            amag
        } else {
            -amag
        };
        let ghost before = cmds@;
        let ghost rest = segs_from(
            cx as int,
            cy as int,
            j as nat,
            a0 as int,
            len as int,
            curve as int,
            odd,
            *s,
            part,
        );
        emit_seg(cmds, cx, cy, curve, a, l, s, part);
        proof {
            let head = seg_cmds(cx as int, cy as int, curve as int, a as int, l as int, *s, part);
            let tail = segs_from(
                fx_add(cx as int, curve as int),
                fx_add(cy as int, a as int),
                j as nat + 1,
                a0 as int,
                len as int,
                curve as int,
                odd,
                *s,
                part,
            );
            assert(rest == head + tail);
            assert(before + (head + tail) =~= (before + head) + tail);
        }
        cx = fadd(cx, curve);
        cy = fadd(cy, a);
        j = j + 1;
    }
    proof {
        assert(segs_from(
            cx as int,
            cy as int,
            j as nat,
            a0 as int,
            len as int,
            curve as int,
            odd,
            *s,
            part,
        ) =~= Seq::<PathCmd>::empty());
        assert(cmds@ + Seq::<PathCmd>::empty() =~= cmds@);
        assert(cmds@ =~= old(cmds)@ + full);
    }
}

/// The leaflet placements from index `i` on, anchored at stem position
/// `px`.  Each placement scales its leaflet by `1 - prog ^ leafshape_exp`,
/// alternates sides by the parity of `i`, weakens the drift toward the tip,
/// anchors on the interpolated stem edge, and advances `px` by half the
/// spaced leaflet length.
pub open spec fn placements_from(s: FernSettings, part: FernPart, i: nat, px: int) -> Seq<PathCmd>
    decreases s.leaflets1 - i,
{
    if i >= s.leaflets1 {
        Seq::empty()
    } else {
        let prog = i as int * FX_ONE as int / (s.leaflets1 as int);
        let len = fx_sub(FX_ONE as int, fx_pow(prog, s.leafshape_exp as int));
        let odd = i % 2 == 1;
        let curve = fx_mul(
            s.curvature as int,
            fx_sub(FX_ONE as int, fx_mul(FX_HALF as int, prog)),
        );
        let edge = fx_add(
            fx_mul(s.stem_w as int, fx_sub(FX_ONE as int, prog)),
            fx_mul(s.stem_w2 as int, prog),
        );
        let sy = if odd {
            edge
        } else {
            -edge
        };
        leaflet_cmds(px, sy, len, curve, odd, s, part) + placements_from(
            s,
            part,
            i + 1,
            fx_add(
                px,
                fx_mul(
                    fx_mul(fx_mul(s.l0 as int, len), s.leaflet_spacing as int),
                    FX_HALF as int,
                ),
            ),
        )
    }
}

/// The stem outline where the stem part is generated, nothing otherwise.
pub open spec fn stem_head(s: FernSettings, part: FernPart) -> Seq<PathCmd> {
    if part == FernPart::Stem {
        stem_outline(s)
    } else {
        Seq::empty()
    }
}

/// The complete command sequence of one generation call: the stem outline
/// for the stem part, then all leaflet placements starting at
/// [`PX_START`].
pub open spec fn fern_cmds(s: FernSettings, part: FernPart) -> Seq<PathCmd> {
    stem_head(s, part) + placements_from(s, part, 0, PX_START as int)
}

/// Every coordinate a placement run emits is in range.
pub proof fn lemma_placements_ok(s: FernSettings, part: FernPart, i: nat, px: int)
    requires
        fx_ok(px),
        s.valid(),
    ensures
        forall|k: int|
            0 <= k < placements_from(s, part, i, px).len() ==> cmd_ok(
                #[trigger] placements_from(s, part, i, px)[k],
            ),
    decreases s.leaflets1 - i,
{
    if i < s.leaflets1 {
        let prog = i as int * FX_ONE as int / (s.leaflets1 as int);
        let len = fx_sub(FX_ONE as int, fx_pow(prog, s.leafshape_exp as int));
        let odd = i % 2 == 1;
        let curve = fx_mul(
            s.curvature as int,
            fx_sub(FX_ONE as int, fx_mul(FX_HALF as int, prog)),
        );
        let edge = fx_add(
            fx_mul(s.stem_w as int, fx_sub(FX_ONE as int, prog)),
            fx_mul(s.stem_w2 as int, prog),
        );
        let sy = if odd {
            edge
        } else {
            -edge
        };
        let a0 = (2 * len) / (s.leaflets2 as int + 1);
        lemma_segs_from_ok(px, sy, 0, a0, len, curve, odd, s, part);
        let px2 = fx_add(
            px,
            fx_mul(fx_mul(fx_mul(s.l0 as int, len), s.leaflet_spacing as int), FX_HALF as int),
        );
        lemma_placements_ok(s, part, i + 1, px2);
        let head = leaflet_cmds(px, sy, len, curve, odd, s, part);
        let tail = placements_from(s, part, i + 1, px2);
        let whole = placements_from(s, part, i, px);
        assert(whole == head + tail);
        assert forall|k: int| 0 <= k < whole.len() implies cmd_ok(whole[k]) by {
            if k < head.len() {
                assert(whole[k] == head[k]);
            } else {
                assert(whole[k] == tail[k - head.len()]);
            }
        }
    }
}

/// Every coordinate of the complete command sequence is in range.
pub proof fn lemma_fern_cmds_ok(s: FernSettings, part: FernPart)
    requires
        s.valid(),
    ensures
        forall|k: int|
            0 <= k < fern_cmds(s, part).len() ==> cmd_ok(#[trigger] fern_cmds(s, part)[k]),
{
    lemma_placements_ok(s, part, 0, PX_START as int);
    let head = stem_head(s, part);
    let tail = placements_from(s, part, 0, PX_START as int);
    let whole = fern_cmds(s, part);
    assert(whole == head + tail);
    assert forall|k: int| 0 <= k < whole.len() implies cmd_ok(whole[k]) by {
        if k < head.len() {
            assert(whole[k] == head[k]);
            assert(cmd_ok(head[k]));
        } else {
            assert(whole[k] == tail[k - head.len()]);
        }
    }
}

/// Generate the path for one part of the fern.
///
/// Returns the exact command sequence of the spec-level model
/// [`fern_cmds`] when every parameter is inside its documented range, and
/// `InvalidParameter` — before emitting anything — when one is not.
pub fn fern_path(s: &FernSettings, part: FernPart) -> (r: Result<FernPath, FernError>)
    ensures
        s.valid() ==> (r matches Ok(p) && p@ == fern_cmds(*s, part) && p.wf()),
        !s.valid() ==> r == Err::<FernPath, FernError>(FernError::InvalidParameter),
{
    if !s.check_valid() {
        return Err(FernError::InvalidParameter);
    }
    let mut cmds: Vec<PathCmd> = Vec::new();
    match part {
        FernPart::Stem => {
            cmds.push(PathCmd::Begin { at: Point { x: 0, y: s.stem_w } });
            cmds.push(PathCmd::LineTo { to: Point { x: FX_ONE, y: s.stem_w2 } });
            cmds.push(PathCmd::LineTo { to: Point { x: FX_ONE, y: -s.stem_w2 } });
            cmds.push(PathCmd::LineTo { to: Point { x: 0, y: -s.stem_w } });
            cmds.push(PathCmd::Close);
        },
        FernPart::LeafletTop => {},
        FernPart::LeafletBottom => {},
    }
    proof {
        assert(cmds@ =~= stem_head(*s, part));
    }
    let mut px: i64 = PX_START;
    let mut i: u32 = 0;
    let n1: u32 = s.leaflets1;
    while i < n1
        invariant
            i <= n1,
            n1 == s.leaflets1,
            s.valid(),
            fx_ok(px as int),
            fern_cmds(*s, part) == cmds@ + placements_from(*s, part, i as nat, px as int),
        decreases n1 - i,
    {
        let prog = frac_of(i, n1);
        let pw = fpow(prog, s.leafshape_exp);
        let len = fsub(FX_ONE, pw);
        let odd = i % 2 == 1;
        let curve = fmul(s.curvature, fsub(FX_ONE, fmul(FX_HALF, prog)));
        let edge = fadd(fmul(s.stem_w, fsub(FX_ONE, prog)), fmul(s.stem_w2, prog));
        let sy = if odd {
            edge
        } else {
            -edge
        };
        let ghost before = cmds@;
        let ghost rest = placements_from(*s, part, i as nat, px as int);
        emit_leaflet(&mut cmds, px, sy, len, curve, odd, s, part);
        let px2 = fadd(px, fmul(fmul(fmul(s.l0, len), s.leaflet_spacing), FX_HALF));
        proof {
            let head = leaflet_cmds(px as int, sy as int, len as int, curve as int, odd, *s, part);
            let tail = placements_from(*s, part, i as nat + 1, px2 as int);
            assert(rest == head + tail);
            assert(before + (head + tail) =~= (before + head) + tail);
        }
        px = px2;
        i = i + 1;
    }
    proof {
        assert(placements_from(*s, part, i as nat, px as int) =~= Seq::<PathCmd>::empty());
        assert(cmds@ =~= fern_cmds(*s, part));
    }
    let r = FernPath { cmds };
    proof {
        lemma_fern_cmds_ok(*s, part);
    }
    Ok(r)
}

/// Finalization of one point: translate the stem axis by one half, then
/// scale onto the raster footprint — `x` by `width`, `y` by half of
/// `height`.
pub open spec fn finalize_pt(p: Point, w: u32, h: u32) -> Point {
    pt_s(
        fx_mul(fx_add(p.x as int, FX_HALF as int), w as int * FX_ONE as int),
        fx_mul(p.y as int, h as int * FX_ONE as int / 2),
    )
}

/// Finalization applied to the points of one command.
pub open spec fn finalize_cmd(c: PathCmd, w: u32, h: u32) -> PathCmd {
    match c {
        PathCmd::Begin { at } => PathCmd::Begin { at: finalize_pt(at, w, h) },
        PathCmd::LineTo { to } => PathCmd::LineTo { to: finalize_pt(to, w, h) },
        PathCmd::QuadTo { ctrl, to } => PathCmd::QuadTo {
            ctrl: finalize_pt(ctrl, w, h),
            to: finalize_pt(to, w, h),
        },
        PathCmd::Close => PathCmd::Close,
    }
}

/// Finalization applied to a whole command sequence.
pub open spec fn finalize_cmds(cs: Seq<PathCmd>, w: u32, h: u32) -> Seq<PathCmd> {
    cs.map_values(|c: PathCmd| finalize_cmd(c, w, h))
}

/// Apply the translate-then-scale finalization to a generated path,
/// mapping the local frame onto a `w` by `h` pixel footprint.
pub fn finalize_path(p: &FernPath, w: u32, h: u32) -> (r: FernPath)
    requires
        p.wf(),
        8 <= w <= 4096,
        8 <= h <= 4096,
    ensures
        r@ == finalize_cmds(p@, w, h),
        r.wf(),
{
    proof {
        vstd::arithmetic::mul::lemma_mul_inequality(w as int, 4096, FX_ONE as int);
        vstd::arithmetic::mul::lemma_mul_inequality(h as int, 4096, FX_ONE as int);
    }
    let sw: i64 = (w as i64) * FX_ONE;
    let sh: i64 = (((h as u64) * (FX_ONE as u64)) / 2) as i64;
    let mut out: Vec<PathCmd> = Vec::new();
    let mut i: usize = 0;
    while i < p.cmds.len()
        invariant
            i <= p.cmds.len(),
            p.wf(),
            8 <= w <= 4096,
            8 <= h <= 4096,
            sw as int == w as int * FX_ONE as int,
            sh as int == h as int * FX_ONE as int / 2,
            fx_ok(sw as int),
            fx_ok(sh as int),
            out@.len() == i,
            forall|k: int|
                0 <= k < i ==> #[trigger] out@[k] == finalize_cmd(p@[k], w, h) && cmd_ok(out@[k]),
        decreases p.cmds.len() - i,
    {
        proof {
            assert(cmd_ok(p@[i as int]));
        }
        let c = p.cmds[i];
        match c {
            PathCmd::Begin { at } => {
                out.push(PathCmd::Begin {
                    at: Point { x: fmul(fadd(at.x, FX_HALF), sw), y: fmul(at.y, sh) },
                });
            },
            PathCmd::LineTo { to } => {
                out.push(PathCmd::LineTo {
                    to: Point { x: fmul(fadd(to.x, FX_HALF), sw), y: fmul(to.y, sh) },
                });
            },
            PathCmd::QuadTo { ctrl, to } => {
                out.push(PathCmd::QuadTo {
                    ctrl: Point { x: fmul(fadd(ctrl.x, FX_HALF), sw), y: fmul(ctrl.y, sh) },
                    to: Point { x: fmul(fadd(to.x, FX_HALF), sw), y: fmul(to.y, sh) },
                });
            },
            PathCmd::Close => {
                out.push(PathCmd::Close);
            },
        }
        i = i + 1;
    }
    let r = FernPath { cmds: out };
    proof {
        assert(r@ =~= finalize_cmds(p@, w, h));
    }
    r
}

/// The three finalized paths of one fern instance, one per part.
#[derive(Clone, Debug, PartialEq, Eq)]
pub struct FernParts {
    /// The stem part.
    pub stem: FernPath,
    /// The upper leaflet row.
    pub top: FernPath,
    /// The lower leaflet row.
    pub bottom: FernPath,
}

/// Regenerate all three parts for one settings record: generate each part
/// and finalize it onto the raster footprint.  This is the entry point a
/// host calls whenever it observes the record to have changed.
pub fn regenerate(s: &FernSettings) -> (r: Result<FernParts, FernError>)
    ensures
        s.valid() ==> (r matches Ok(p)
            && p.stem@ == finalize_cmds(fern_cmds(*s, FernPart::Stem), s.width, s.height)
            && p.top@ == finalize_cmds(fern_cmds(*s, FernPart::LeafletTop), s.width, s.height)
            && p.bottom@ == finalize_cmds(
            fern_cmds(*s, FernPart::LeafletBottom),
            s.width,
            s.height,
        )),
        !s.valid() ==> r == Err::<FernParts, FernError>(FernError::InvalidParameter),
{
    if !s.check_valid() {
        return Err(FernError::InvalidParameter);
    }
    let stem = match fern_path(s, FernPart::Stem) {
        Ok(p) => p,
        Err(e) => {
            return Err(e);
        },
    };
    let top = match fern_path(s, FernPart::LeafletTop) {
        Ok(p) => p,
        Err(e) => {
            return Err(e);
        },
    };
    let bottom = match fern_path(s, FernPart::LeafletBottom) {
        Ok(p) => p,
        Err(e) => {
            return Err(e);
        },
    };
    Ok(FernParts {
        stem: finalize_path(&stem, s.width, s.height),
        top: finalize_path(&top, s.width, s.height),
        bottom: finalize_path(&bottom, s.width, s.height),
    })
}

} // verus!
