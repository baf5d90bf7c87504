use vstd::prelude::*;

use crate::geometry::{add_clipped, clip, direction, is_near, near, Block, Mouse, Point};

verus! {

/// Largest jitter speed of a coordinate, in units per second.
pub const DRIFT: i64 = 100;

/// Largest jitter speed of a width or height, in units per second.
pub const GROWTH: i64 = 30;

/// Largest speed of the pull towards the cursor, in units per second.
pub const PULL: i64 = 200;

/// The random speeds, in units per second, that move one block in one frame.
#[derive(Clone, Copy, Debug, PartialEq, Eq)]
pub struct Nudge {
    pub dx: i64,
    pub dy: i64,
    pub dw: i64,
    pub dh: i64,
    pub pull: i64,
}

impl Nudge {
    /// Each speed lies in the half-open range it is drawn from.
    pub open spec fn wf(self) -> bool {
        &&& -DRIFT <= self.dx < DRIFT
        &&& -DRIFT <= self.dy < DRIFT
        &&& -GROWTH <= self.dw < GROWTH
        &&& -GROWTH <= self.dh < GROWTH
        &&& 0 <= self.pull < PULL
    }
}

/// The block after its jitter alone: each coordinate and extent moved by its
/// speed times the elapsed time.
pub open spec fn jittered(b: Block, n: Nudge, dt: int) -> Block {
    Block {
        pos: Point { x: clip(b.pos.x + n.dx * dt) as i64, y: clip(b.pos.y + n.dy * dt) as i64 },
        size: Point {
            x: clip(b.size.x + n.dw * dt) as i64,
            y: clip(b.size.y + n.dh * dt) as i64,
        },
        color: b.color,
    }
}

/// How far a block at `p` moves towards the cursor along each axis: away
/// from it (a negative amount) where the button is held and `p` is near.
pub open spec fn pull_amount(p: Point, n: Nudge, m: Mouse, dt: int) -> int {
    if m.left_down && near(p, m) {
        -(n.pull * dt)
    } else {
        n.pull * dt
    }
}

/// The block after one frame of `dt` milliseconds: jitter, then, while the
/// cursor is over a window, one step along each axis towards the cursor (or
/// away from it).
pub open spec fn stepped(b: Block, n: Nudge, m: Mouse, dt: int) -> Block {
    let j = jittered(b, n, dt);
    if m.in_window {
        let a = pull_amount(j.pos, n, m, dt);
        Block {
            pos: Point {
                x: clip(j.pos.x + direction(m.x - j.pos.x) * a) as i64,
                y: clip(j.pos.y + direction(m.y - j.pos.y) * a) as i64,
            },
            ..j
        }
    } else {
        j
    }
}

/// The scene after one frame, each block moved by the nudge of the same index.
pub open spec fn scene_after(s: Seq<Block>, ns: Seq<Nudge>, m: Mouse, dt: int) -> Seq<Block> {
    Seq::new(s.len(), |i: int| stepped(s[i], ns[i], m, dt))
}

/// Every nudge of `ns` is well formed.
pub open spec fn all_wf(ns: Seq<Nudge>) -> bool {
    forall|i: int| 0 <= i < ns.len() ==> #[trigger] ns[i].wf()
}

/// One coordinate moved by `speed` units per second for `dt` milliseconds.
fn drift(v: i64, speed: i64, dt: u32) -> (r: i64)
    requires
        -1000 <= speed <= 1000,
    ensures
        r == clip(v + speed * dt),
{
    proof {
        assert(-1000 * (dt as int) <= speed * dt <= 1000 * (dt as int)) by (nonlinear_arith)
            requires
                -1000 <= speed <= 1000,
                dt >= 0,
        ;
    }
    add_clipped(v, speed * dt as i64)
}

/// Moves one block through one frame.
pub fn step_block(b: Block, n: Nudge, m: Mouse, dt: u32) -> (r: Block)
    requires
        n.wf(),
    ensures
        r == stepped(b, n, m, dt as int),
{
    let j = Block {
        pos: Point { x: drift(b.pos.x, n.dx, dt), y: drift(b.pos.y, n.dy, dt) },
        size: Point { x: drift(b.size.x, n.dw, dt), y: drift(b.size.y, n.dh, dt) },
        color: b.color,
    };
    if m.in_window {
        let speed: i64 = if m.left_down && is_near(j.pos, m) {
            -n.pull
        } else {
            n.pull
        };
        let sx: i64 = if m.x < j.pos.x {
            -speed
        } else {
            speed
        };
        let sy: i64 = if m.y < j.pos.y {
            -speed
        } else {
            speed
        };
        proof {
            let a = pull_amount(j.pos, n, m, dt as int);
            let p = n.pull as int;
            let t = dt as int;
            assert(-(p * t) == (-p) * t) by (nonlinear_arith);
            assert(a == speed * t);
            let ex = direction(m.x - j.pos.x);
            let ey = direction(m.y - j.pos.y);
            if m.x < j.pos.x {
                assert(ex == -1);
            } else {
                assert(ex == 1);
            }
            if m.y < j.pos.y {
                assert(ey == -1);
            } else {
                assert(ey == 1);
            }
            assert(sx == ex * speed);
            assert(sy == ey * speed);
            assert(ex * a == sx * t) by (nonlinear_arith)
                requires
                    a == speed * t,
                    sx == ex * speed,
            ;
            assert(ey * a == sy * t) by (nonlinear_arith)
                requires
                    a == speed * t,
                    sy == ey * speed,
            ;
        }
        Block { pos: Point { x: drift(j.pos.x, sx, dt), y: drift(j.pos.y, sy, dt) }, ..j }
    } else {
        j
    }
}

/// Moves every block of `blocks` through one frame, each by the nudge of the
/// same index.
pub fn advance(blocks: &mut Vec<Block>, nudges: &Vec<Nudge>, m: Mouse, dt: u32)
    requires
        old(blocks).len() == nudges.len(),
        all_wf(nudges@),
    ensures
        final(blocks)@ == scene_after(old(blocks)@, nudges@, m, dt as int),
{
    let ghost start = blocks@;
    let mut i: usize = 0;
    while i < blocks.len()
        invariant
            blocks.len() == start.len(),
            nudges.len() == start.len(),
            all_wf(nudges@),
            i <= blocks.len(),
            forall|k: int| 0 <= k < i ==> blocks@[k] == stepped(start[k], nudges@[k], m, dt as int),
            forall|k: int| i <= k < blocks.len() ==> blocks@[k] == start[k],
        decreases blocks.len() - i,
    {
        let moved = step_block(blocks[i], nudges[i], m, dt);
        blocks.set(i, moved);
        i = i + 1;
    }
    assert(blocks@ =~= scene_after(start, nudges@, m, dt as int));
}

/// The distance between two numbers.
pub open spec fn gap(a: int, b: int) -> int {
    if a < b {
        b - a
    } else {
        a - b
    }
}

/// Holding a sum to the range of `i64` moves it back towards the start:
/// `clip(v + d)` lies between `v` and `v + d`.
pub proof fn lemma_clip_between(v: int, d: int)
    requires
        i64::MIN <= v <= i64::MAX,
    ensures
        d >= 0 ==> v <= clip(v + d) <= v + d,
        d <= 0 ==> v + d <= clip(v + d) <= v,
{
}

/// In one frame of `dt` milliseconds a coordinate moves by at most
/// (100 + 200) units per second, an extent by at most 30, and the colour
/// stays.
pub proof fn lemma_step_bounded(b: Block, n: Nudge, m: Mouse, dt: nat)
    requires
        n.wf(),
    ensures
        gap(stepped(b, n, m, dt as int).pos.x as int, b.pos.x as int) <= (DRIFT + PULL) * dt,
        gap(stepped(b, n, m, dt as int).pos.y as int, b.pos.y as int) <= (DRIFT + PULL) * dt,
        gap(stepped(b, n, m, dt as int).size.x as int, b.size.x as int) <= GROWTH * dt,
        gap(stepped(b, n, m, dt as int).size.y as int, b.size.y as int) <= GROWTH * dt,
        stepped(b, n, m, dt as int).color == b.color,
{
    let t = dt as int;
    let j = jittered(b, n, t);
    lemma_jitter_bounded(b.pos.x as int, n.dx as int, DRIFT as int, t);
    lemma_jitter_bounded(b.pos.y as int, n.dy as int, DRIFT as int, t);
    lemma_jitter_bounded(b.size.x as int, n.dw as int, GROWTH as int, t);
    lemma_jitter_bounded(b.size.y as int, n.dh as int, GROWTH as int, t);
    if m.in_window {
        let a = pull_amount(j.pos, n, m, t);
        let p = n.pull as int;
        assert(0 <= p * t <= PULL * t) by (nonlinear_arith)
            requires
                0 <= p < PULL,
                t >= 0,
        ;
        let ex = direction(m.x - j.pos.x);
        let ey = direction(m.y - j.pos.y);
        assert(-(PULL * t) <= ex * a <= PULL * t) by (nonlinear_arith)
            requires
                ex == 1 || ex == -1,
                -(PULL * t) <= a <= PULL * t,
        ;
        assert(-(PULL * t) <= ey * a <= PULL * t) by (nonlinear_arith)
            requires
                ey == 1 || ey == -1,
                -(PULL * t) <= a <= PULL * t,
        ;
        lemma_clip_between(j.pos.x as int, ex * a);
        lemma_clip_between(j.pos.y as int, ey * a);
    }
}

/// One coordinate jittered at a speed under `top` moves by at most `top * t`.
proof fn lemma_jitter_bounded(v: int, speed: int, top: int, t: int)
    requires
        i64::MIN <= v <= i64::MAX,
        -top <= speed < top,
        t >= 0,
    ensures
        gap(clip(v + speed * t), v) <= top * t,
{
    assert(-(top * t) <= speed * t <= top * t) by (nonlinear_arith)
        requires
            -top <= speed < top,
            t >= 0,
    ;
    lemma_clip_between(v, speed * t);
}

/// Over a window, the step towards the cursor goes against the cursor's
/// side on each axis while the button is held near it, and with it
/// otherwise; the step is measured from the jittered block.
pub proof fn lemma_pull_direction(b: Block, n: Nudge, m: Mouse, dt: nat)
    requires
        n.wf(),
        m.in_window,
    ensures
        ({
            let j = jittered(b, n, dt as int);
            let r = stepped(b, n, m, dt as int);
            let dx = (r.pos.x - j.pos.x) * (m.x - j.pos.x);
            let dy = (r.pos.y - j.pos.y) * (m.y - j.pos.y);
            if m.left_down && near(j.pos, m) {
                dx <= 0 && dy <= 0
            } else {
                dx >= 0 && dy >= 0
            }
        }),
{
    let t = dt as int;
    let j = jittered(b, n, t);
    let r = stepped(b, n, m, t);
    let a = pull_amount(j.pos, n, m, t);
    let p = n.pull as int;
    assert(p * t >= 0) by (nonlinear_arith)
        requires
            p >= 0,
            t >= 0,
    ;
    let repel = m.left_down && near(j.pos, m);
    lemma_axis_direction(j.pos.x as int, m.x as int, a, repel);
    lemma_axis_direction(j.pos.y as int, m.y as int, a, repel);
}

/// One axis of the step towards the cursor at `c` from `v` by `a`.
proof fn lemma_axis_direction(v: int, c: int, a: int, repel: bool)
    requires
        i64::MIN <= v <= i64::MAX,
        repel ==> a <= 0,
        !repel ==> a >= 0,
    ensures
        repel ==> (clip(v + direction(c - v) * a) - v) * (c - v) <= 0,
        !repel ==> (clip(v + direction(c - v) * a) - v) * (c - v) >= 0,
{
    let e = direction(c - v);
    let moved = clip(v + e * a) - v;
    lemma_clip_between(v, e * a);
    if c - v < 0 {
        assert(e == -1);
        assert(moved * (c - v) <= 0 || !repel) by (nonlinear_arith)
            requires
                repel ==> moved >= 0,
                c - v < 0,
        ;
        assert(moved * (c - v) >= 0 || repel) by (nonlinear_arith)
            requires
                !repel ==> moved <= 0,
                c - v < 0,
        ;
    } else {
        assert(e == 1);
        assert(moved * (c - v) <= 0 || !repel) by (nonlinear_arith)
            requires
                repel ==> moved <= 0,
                c - v >= 0,
        ;
        assert(moved * (c - v) >= 0 || repel) by (nonlinear_arith)
            requires
                !repel ==> moved >= 0,
                c - v >= 0,
        ;
    }
}

/// With no time elapsed a frame leaves the block as it was.
pub proof fn lemma_still_step(b: Block, n: Nudge, m: Mouse)
    ensures
        stepped(b, n, m, 0) == b,
{
    assert(n.dx * 0 == 0 && n.dy * 0 == 0 && n.dw * 0 == 0 && n.dh * 0 == 0 && n.pull * 0 == 0);
    let j = jittered(b, n, 0);
    assert(j == b);
    if m.in_window {
        let a = pull_amount(j.pos, n, m, 0);
        assert(a == 0);
        assert(direction(m.x - j.pos.x) * a == 0);
        assert(direction(m.y - j.pos.y) * a == 0);
    }
}

/// A frame keeps the number of blocks.
pub proof fn lemma_frame_keeps_count(s: Seq<Block>, ns: Seq<Nudge>, m: Mouse, dt: int)
    ensures
        scene_after(s, ns, m, dt).len() == s.len(),
{
}

/// With no time elapsed a frame leaves every block as it was.
pub proof fn lemma_still_frame(s: Seq<Block>, ns: Seq<Nudge>, m: Mouse)
    requires
        ns.len() == s.len(),
    ensures
        scene_after(s, ns, m, 0) == s,
{
    assert forall|i: int| 0 <= i < s.len() implies #[trigger] scene_after(s, ns, m, 0)[i]
        == s[i] by {
        lemma_still_step(s[i], ns[i], m);
    }
    assert(scene_after(s, ns, m, 0) =~= s);
}

/// What one frame hands to the scene: a nudge per block, the cursor, and
/// the elapsed milliseconds.
pub struct Frame {
    pub nudges: Seq<Nudge>,
    pub mouse: Mouse,
    pub dt: nat,
}

/// The scene after the frames of `fs`, in order.
pub open spec fn replay(s: Seq<Block>, fs: Seq<Frame>) -> Seq<Block>
    decreases fs.len(),
{
    if fs.len() == 0 {
        s
    } else {
        let f = fs.last();
        scene_after(replay(s, fs.drop_last()), f.nudges, f.mouse, f.dt as int)
    }
}

/// However many frames run, no block is made or lost.
pub proof fn lemma_replay_keeps_count(s: Seq<Block>, fs: Seq<Frame>)
    ensures
        replay(s, fs).len() == s.len(),
    decreases fs.len(),
{
    if fs.len() > 0 {
        lemma_replay_keeps_count(s, fs.drop_last());
    }
}

/// Frames in which no time elapses, however many, each with a nudge per
/// block, leave the scene as it was.
pub proof fn lemma_replay_still(s: Seq<Block>, fs: Seq<Frame>)
    requires
        forall|k: int|
            0 <= k < fs.len() ==> (#[trigger] fs[k]).dt == 0 && fs[k].nudges.len() == s.len(),
    ensures
        replay(s, fs) == s,
    decreases fs.len(),
{
    if fs.len() > 0 {
        let f = fs.last();
        assert forall|k: int| 0 <= k < fs.drop_last().len() implies (
        #[trigger] fs.drop_last()[k]).dt == 0 && fs.drop_last()[k].nudges.len() == s.len() by {
            assert(fs.drop_last()[k] == fs[k]);
        }
        lemma_replay_still(s, fs.drop_last());
        lemma_still_frame(s, f.nudges, f.mouse);
    }
}

/// Two frames in which no time elapses leave the scene as it was.
pub proof fn lemma_two_still_frames(
    s: Seq<Block>,
    first: Seq<Nudge>,
    second: Seq<Nudge>,
    m1: Mouse,
    m2: Mouse,
)
    requires
        first.len() == s.len(),
        second.len() == s.len(),
    ensures
        scene_after(scene_after(s, first, m1, 0), second, m2, 0) == s,
{
    lemma_still_frame(s, first, m1);
    lemma_still_frame(s, second, m2);
}

} // verus!
