//! Scenario tests of the path generator.

use ferngen::fern::{emit_leaflet, fern_path, regenerate};
use ferngen::path::{FernPath, PathCmd, Point};
use ferngen::settings::{FernError, FernPart, FernSettings};

fn closed_contours(p: &FernPath) -> usize {
    p.count_closed()
}

#[test]
fn generation_is_deterministic() {
    let s = FernSettings::default();
    let first = regenerate(&s).unwrap();
    let second = regenerate(&s).unwrap();
    assert_eq!(first, second);
    for part in [FernPart::Stem, FernPart::LeafletTop, FernPart::LeafletBottom] {
        let a = fern_path(&s, part).unwrap();
        let b = fern_path(&s, part).unwrap();
        assert_eq!(a, b);
    }
}

#[test]
fn stem_opens_with_taper_outline() {
    // stem_w = 0.08, stem_w2 = 0.008: the stock values
    let s = FernSettings::default();
    let p = fern_path(&s, FernPart::Stem).unwrap();
    assert!(p.len() >= 5);
    assert_eq!(p.cmd(0), PathCmd::Begin { at: Point { x: 0, y: 80_000 } });
    assert_eq!(p.cmd(1), PathCmd::LineTo { to: Point { x: 1_000_000, y: 8_000 } });
    assert_eq!(p.cmd(2), PathCmd::LineTo { to: Point { x: 1_000_000, y: -8_000 } });
    assert_eq!(p.cmd(3), PathCmd::LineTo { to: Point { x: 0, y: -80_000 } });
    assert_eq!(p.cmd(4), PathCmd::Close);
}

#[test]
fn leaflet_count_is_placements_times_segments() {
    let mut s = FernSettings::default();
    s.leaflets1 = 10;
    for leaflets2 in [5u32, 10, 12] {
        s.leaflets2 = leaflets2;
        let top = fern_path(&s, FernPart::LeafletTop).unwrap();
        let contours = closed_contours(&top);
        assert_eq!(contours, 10 * (leaflets2 as usize - 2));
        // ten top-level placements, whatever the segment count
        assert_eq!(contours / (leaflets2 as usize - 2), 10);
        let bottom = fern_path(&s, FernPart::LeafletBottom).unwrap();
        assert_eq!(closed_contours(&bottom), contours);
    }
}

#[test]
fn stem_counts_outline_plus_ribs() {
    let s = FernSettings::default();
    let stem = fern_path(&s, FernPart::Stem).unwrap();
    assert_eq!(
        closed_contours(&stem),
        1 + (s.leaflets1 as usize) * (s.leaflets2 as usize - 2)
    );
}

#[test]
fn single_placement_segment_count() {
    // one placement with leaflets2 = 12 emits exactly ten closed shapes
    let mut s = FernSettings::default();
    s.leaflets2 = 12;
    let mut cmds: Vec<PathCmd> = Vec::new();
    emit_leaflet(
        &mut cmds,
        100_000,
        80_000,
        1_000_000,
        0,
        false,
        &s,
        FernPart::LeafletTop,
    );
    let p = FernPath { cmds };
    assert_eq!(closed_contours(&p), 10);
}

#[test]
fn lower_leaflet_mirrors_upper() {
    let mut s = FernSettings::default();
    s.slant = 0;
    s.curvature = 0;
    let sx: i64 = 300_000;
    let mut top_cmds: Vec<PathCmd> = Vec::new();
    let mut bottom_cmds: Vec<PathCmd> = Vec::new();
    emit_leaflet(&mut top_cmds, sx, 50_000, 900_000, 0, true, &s, FernPart::LeafletTop);
    emit_leaflet(
        &mut bottom_cmds,
        sx,
        50_000,
        900_000,
        0,
        true,
        &s,
        FernPart::LeafletBottom,
    );
    assert_eq!(top_cmds.len(), bottom_cmds.len());
    assert!(!top_cmds.is_empty());
    let mirror = |p: Point, q: Point| {
        assert_eq!(p.y, q.y);
        assert_eq!(p.x + q.x, 2 * sx);
    };
    for k in 0..top_cmds.len() {
        match (top_cmds[k], bottom_cmds[k]) {
            (PathCmd::Begin { at: p }, PathCmd::Begin { at: q }) => mirror(p, q),
            (PathCmd::LineTo { to: p }, PathCmd::LineTo { to: q }) => mirror(p, q),
            (PathCmd::QuadTo { ctrl: p1, to: p2 }, PathCmd::QuadTo { ctrl: q1, to: q2 }) => {
                mirror(p1, q1);
                mirror(p2, q2);
            }
            (PathCmd::Close, PathCmd::Close) => {}
            (a, b) => panic!("command shapes differ: {:?} vs {:?}", a, b),
        }
    }
}

#[test]
fn mirror_holds_across_whole_paths_with_zero_curvature() {
    let mut s = FernSettings::default();
    s.slant = 0;
    s.curvature = 0;
    let top = fern_path(&s, FernPart::LeafletTop).unwrap();
    let bottom = fern_path(&s, FernPart::LeafletBottom).unwrap();
    assert_eq!(top.len(), bottom.len());
    for k in 0..top.len() {
        match (top.cmd(k), bottom.cmd(k)) {
            (PathCmd::Begin { at: p }, PathCmd::Begin { at: q }) => assert_eq!(p.y, q.y),
            (PathCmd::LineTo { to: p }, PathCmd::LineTo { to: q }) => assert_eq!(p.y, q.y),
            (PathCmd::QuadTo { ctrl: p1, to: p2 }, PathCmd::QuadTo { ctrl: q1, to: q2 }) => {
                assert_eq!(p1.y, q1.y);
                assert_eq!(p2.y, q2.y);
            }
            (PathCmd::Close, PathCmd::Close) => {}
            (a, b) => panic!("command shapes differ: {:?} vs {:?}", a, b),
        }
    }
}

#[test]
fn degenerate_two_placements_still_generate() {
    let mut s = FernSettings::default();
    s.leaflets1 = 2;
    let stem = fern_path(&s, FernPart::Stem).unwrap();
    assert_eq!(stem.cmd(0), PathCmd::Begin { at: Point { x: 0, y: 80_000 } });
    assert_eq!(stem.cmd(4), PathCmd::Close);
    let top = fern_path(&s, FernPart::LeafletTop).unwrap();
    assert_eq!(closed_contours(&top), 2 * (s.leaflets2 as usize - 2));
    assert!(regenerate(&s).is_ok());
}

#[test]
fn minimum_segment_count_generates() {
    let mut s = FernSettings::default();
    s.leaflets2 = 3;
    let top = fern_path(&s, FernPart::LeafletTop).unwrap();
    assert_eq!(closed_contours(&top), s.leaflets1 as usize);
}

#[test]
fn zero_placements_is_invalid_parameter() {
    let mut s = FernSettings::default();
    s.leaflets1 = 0;
    for part in [FernPart::Stem, FernPart::LeafletTop, FernPart::LeafletBottom] {
        assert_eq!(fern_path(&s, part), Err(FernError::InvalidParameter));
    }
    assert_eq!(regenerate(&s), Err(FernError::InvalidParameter));
}

#[test]
fn out_of_range_parameters_are_rejected() {
    let base = FernSettings::default();

    let mut s = base;
    s.leaflets1 = 1;
    assert_eq!(fern_path(&s, FernPart::Stem), Err(FernError::InvalidParameter));

    let mut s = base;
    s.leaflets2 = 2;
    assert_eq!(fern_path(&s, FernPart::Stem), Err(FernError::InvalidParameter));

    let mut s = base;
    s.stem_w = 0;
    assert_eq!(fern_path(&s, FernPart::Stem), Err(FernError::InvalidParameter));

    let mut s = base;
    s.stem_w2 = 300_001;
    assert_eq!(fern_path(&s, FernPart::Stem), Err(FernError::InvalidParameter));

    let mut s = base;
    s.leaflet_spacing = -1;
    assert_eq!(fern_path(&s, FernPart::Stem), Err(FernError::InvalidParameter));

    let mut s = base;
    s.width = 5_000;
    assert_eq!(regenerate(&s), Err(FernError::InvalidParameter));

    let mut s = base;
    s.height = 7;
    assert_eq!(regenerate(&s), Err(FernError::InvalidParameter));
}
