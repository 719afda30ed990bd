//! Vector-path model.
//!
//! A path is an ordered sequence of drawing commands describing one or more
//! contours: begin at a point, straight line, quadratic bezier, close.  It is
//! the sole artifact the generator emits; a host feeds it to a
//! fill/triangulation collaborator.

use crate::fixed::fx_ok;
use vstd::prelude::*;

verus! {

/// A 2D point in fixed-point coordinates.
#[derive(Clone, Copy, Debug, PartialEq, Eq, Structural)]
pub struct Point {
    pub x: i64,
    pub y: i64,
}

/// Build a point from unbounded spec-level coordinates; callers keep the
/// coordinates inside the `i64` range, where the cast is the identity.
pub open spec fn pt_s(x: int, y: int) -> Point {
    Point { x: x as i64, y: y as i64 }
}

/// One path-construction command.
#[derive(Clone, Copy, Debug, PartialEq, Eq, Structural)]
pub enum PathCmd {
    /// Start a new contour at a point.
    Begin { at: Point },
    /// Straight segment to a point.
    LineTo { to: Point },
    /// Quadratic bezier through a control point to an end point.
    QuadTo { ctrl: Point, to: Point },
    /// Close the current contour.
    Close,
}

/// Whether every coordinate of a command is within the saturation bound.
pub open spec fn cmd_ok(c: PathCmd) -> bool {
    match c {
        PathCmd::Begin { at } => fx_ok(at.x as int) && fx_ok(at.y as int),
        PathCmd::LineTo { to } => fx_ok(to.x as int) && fx_ok(to.y as int),
        PathCmd::QuadTo { ctrl, to } => fx_ok(ctrl.x as int) && fx_ok(ctrl.y as int)
            && fx_ok(to.x as int) && fx_ok(to.y as int),
        PathCmd::Close => true,
    }
}

/// Number of closed contours in a command sequence.
pub open spec fn closed_count(cs: Seq<PathCmd>) -> nat
    decreases cs.len(),
{
    if cs.len() == 0 {
        0
    } else {
        closed_count(cs.drop_last()) + (if cs.last() is Close {
            1nat
        } else {
            0nat
        })
    }
}

/// An ordered sequence of path commands.
#[derive(Clone, Debug, PartialEq, Eq)]
pub struct FernPath {
    pub cmds: Vec<PathCmd>,
}

impl View for FernPath {
    type V = Seq<PathCmd>;

    open spec fn view(&self) -> Seq<PathCmd> {
        self.cmds@
    }
}

impl FernPath {
    /// A path is well formed when every coordinate it holds is in range.
    pub open spec fn wf(self) -> bool {
        forall|i: int| 0 <= i < self@.len() ==> cmd_ok(#[trigger] self@[i])
    }

    /// The empty path.
    pub fn empty() -> (r: FernPath)
        ensures
            r@ == Seq::<PathCmd>::empty(),
            r.wf(),
    {
        let r = FernPath { cmds: Vec::new() };
        proof {
            assert(r@ =~= Seq::<PathCmd>::empty());
        }
        r
    }

    /// Number of commands.
    pub fn len(&self) -> (n: usize)
        ensures
            n == self@.len(),
    {
        self.cmds.len()
    }

    /// The command at an index.
    pub fn cmd(&self, i: usize) -> (c: PathCmd)
        requires
            i < self@.len(),
        ensures
            c == self@[i as int],
    {
        self.cmds[i]
    }

    /// Number of closed contours, counted at run time.
    pub fn count_closed(&self) -> (n: usize)
        ensures
            n == closed_count(self@),
    {
        let mut n: usize = 0;
        let mut i: usize = 0;
        while i < self.cmds.len()
            invariant
                i <= self.cmds.len(),
                n == closed_count(self@.take(i as int)),
                n <= i,
            decreases self.cmds.len() - i,
        {
            proof {
                assert(self@.take(i + 1 as int).drop_last() =~= self@.take(i as int));
                assert(self@.take(i + 1 as int).last() == self@[i as int]);
            }
            if let PathCmd::Close = self.cmds[i] {
                n = n + 1;
            }
            i = i + 1;
        }
        proof {
            assert(self@.take(self@.len() as int) =~= self@);
        }
        n
    }
}

} // verus!
