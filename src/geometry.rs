use vstd::prelude::*;

verus! {

/// Thousandths of a unit in one unit of length.
pub const MILLI: i64 = 1000;

/// Distance, in thousandths, under which a pressed button pushes a block away.
pub const REACH: i64 = 100_000;

/// A point, or an extent, in thousandths of a unit.
#[derive(Clone, Copy, Debug, PartialEq, Eq)]
pub struct Point {
    pub x: i64,
    pub y: i64,
}

impl Point {
    pub fn new(x: i64, y: i64) -> (r: Point)
        ensures
            r.x == x,
            r.y == y,
    {
        Point { x, y }
    }
}

/// A colour, each channel in thousandths of full intensity.
#[derive(Clone, Copy, Debug, PartialEq, Eq)]
pub struct Rgb {
    pub r: u16,
    pub g: u16,
    pub b: u16,
}

impl Rgb {
    /// Every channel lies in [0, 1).
    pub open spec fn wf(self) -> bool {
        self.r < MILLI && self.g < MILLI && self.b < MILLI
    }
}

/// One rectangle of the scene: its centre, its width and height, its colour.
#[derive(Clone, Copy, Debug, PartialEq, Eq)]
pub struct Block {
    pub pos: Point,
    pub size: Point,
    pub color: Rgb,
}

/// The cursor as one frame sees it: its position, whether it is over a
/// window, and whether the left button is held.
#[derive(Clone, Copy, Debug, PartialEq, Eq)]
pub struct Mouse {
    pub x: i64,
    pub y: i64,
    pub in_window: bool,
    pub left_down: bool,
}

/// `v`, held to the range of `i64`.
pub open spec fn clip(v: int) -> int {
    if v < i64::MIN {
        i64::MIN as int
    } else if v > i64::MAX {
        i64::MAX as int
    } else {
        v
    }
}

/// The sign used to step along an axis: a zero difference steps forward.
pub open spec fn direction(d: int) -> int {
    if d < 0 {
        -1
    } else {
        1
    }
}

/// Whether `p` lies strictly within `REACH` of the cursor.
pub open spec fn near(p: Point, m: Mouse) -> bool {
    (p.x - m.x) * (p.x - m.x) + (p.y - m.y) * (p.y - m.y) < REACH * REACH
}

/// `a + b`, held to the range of `i64`.
pub fn add_clipped(a: i64, b: i64) -> (r: i64)
    ensures
        r == clip(a + b),
{
    let s: i128 = a as i128 + b as i128;
    if s < i64::MIN as i128 {
        i64::MIN
    } else if s > i64::MAX as i128 {
        i64::MAX
    } else {
        s as i64
    }
}

/// Whether `p` lies strictly within `REACH` of the cursor.
pub fn is_near(p: Point, m: Mouse) -> (r: bool)
    ensures
        r == near(p, m),
{
    let dx: i128 = p.x as i128 - m.x as i128;
    let dy: i128 = p.y as i128 - m.y as i128;
    let reach: i128 = REACH as i128;
    if dx <= -reach || dx >= reach || dy <= -reach || dy >= reach {
        proof {
            let ex = (p.x - m.x) as int;
            let ey = (p.y - m.y) as int;
            let rr = REACH as int;
            assert(ex * ex >= rr * rr || ey * ey >= rr * rr) by (nonlinear_arith)
                requires
                    ex <= -rr || ex >= rr || ey <= -rr || ey >= rr,
                    rr > 0,
            ;
            assert(ex * ex >= 0 && ey * ey >= 0) by (nonlinear_arith);
        }
        false
    } else {
        proof {
            assert(0 <= dx * dx < reach * reach) by (nonlinear_arith)
                requires
                    -reach < dx < reach,
            ;
            assert(0 <= dy * dy < reach * reach) by (nonlinear_arith)
                requires
                    -reach < dy < reach,
            ;
        }
        dx * dx + dy * dy < reach * reach
    }
}

} // verus!
