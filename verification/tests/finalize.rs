//! Scenario tests of the translate-then-scale finalization.

use ferngen::fern::{finalize_path, regenerate};
use ferngen::path::{FernPath, PathCmd, Point};
use ferngen::settings::FernSettings;

#[test]
fn centered_frame_maps_onto_footprint() {
    // the corners of the centered local frame land on the raster edges
    let p = FernPath {
        cmds: vec![
            PathCmd::Begin { at: Point { x: -500_000, y: -1_000_000 } },
            PathCmd::LineTo { to: Point { x: 500_000, y: 1_000_000 } },
            PathCmd::LineTo { to: Point { x: 0, y: 0 } },
            PathCmd::Close,
        ],
    };
    let r = finalize_path(&p, 512, 512);
    assert_eq!(
        r.cmd(0),
        PathCmd::Begin { at: Point { x: 0, y: -256_000_000 } }
    );
    assert_eq!(
        r.cmd(1),
        PathCmd::LineTo { to: Point { x: 512_000_000, y: 256_000_000 } }
    );
    assert_eq!(
        r.cmd(2),
        PathCmd::LineTo { to: Point { x: 256_000_000, y: 0 } }
    );
    assert_eq!(r.cmd(3), PathCmd::Close);
}

#[test]
fn finalized_points_stay_in_box_for_centered_input() {
    let p = FernPath {
        cmds: vec![
            PathCmd::Begin { at: Point { x: -123_456, y: 654_321 } },
            PathCmd::QuadTo {
                ctrl: Point { x: 250_000, y: -999_999 },
                to: Point { x: -500_000, y: 1_000_000 },
            },
            PathCmd::Close,
        ],
    };
    let w: u32 = 640;
    let h: u32 = 480;
    let r = finalize_path(&p, w, h);
    let check = |q: Point| {
        assert!(0 <= q.x && q.x <= (w as i64) * 1_000_000);
        assert!(q.y.abs() <= (h as i64) * 1_000_000 / 2);
    };
    for k in 0..r.len() {
        match r.cmd(k) {
            PathCmd::Begin { at } => check(at),
            PathCmd::LineTo { to } => check(to),
            PathCmd::QuadTo { ctrl, to } => {
                check(ctrl);
                check(to);
            }
            PathCmd::Close => {}
        }
    }
}

#[test]
fn odd_height_scales_by_exact_half() {
    let p = FernPath {
        cmds: vec![PathCmd::Begin { at: Point { x: 0, y: 1_000_000 } }],
    };
    // height 9: y is scaled by 4.5, exactly representable in fixed point
    let r = finalize_path(&p, 8, 9);
    assert_eq!(r.cmd(0), PathCmd::Begin { at: Point { x: 4_000_000, y: 4_500_000 } });
}

#[test]
fn regenerated_stem_base_lands_at_midline() {
    let s = FernSettings::default();
    let parts = regenerate(&s).unwrap();
    // (0, 0.08) maps to (0.5 * 512, 0.08 * 256) = (256, 20.48) pixels
    assert_eq!(
        parts.stem.cmd(0),
        PathCmd::Begin { at: Point { x: 256_000_000, y: 20_480_000 } }
    );
    assert_eq!(parts.stem.cmd(4), PathCmd::Close);
}
