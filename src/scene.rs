use vstd::prelude::*;

use crate::geometry::{Block, Mouse, Point, Rgb, MILLI};
use crate::motion::{
    advance, all_wf, gap, lemma_step_bounded, lemma_still_frame, scene_after, stepped, Nudge,
    DRIFT, GROWTH, PULL,
};
use crate::random::draw_between;

verus! {

/// Blocks laid on the diagonal, and as many again scattered at random.
pub const HALF: usize = 50;

/// Bound, in thousandths, of a scattered block's coordinates.
pub const SPREAD: i64 = 300_000;

/// Bound, in thousandths, of a scattered block's width and height.
pub const SIZE_SPREAD: i64 = 50_000;

/// The diagonal block of index `i`, with colour `c`.
pub open spec fn grid_block(i: int, c: Rgb) -> Block {
    Block {
        pos: Point { x: (i * 20_000) as i64, y: (i * 10_500) as i64 },
        size: Point { x: (10_000 + i * 3_000) as i64, y: (7_000 + i * 4_000) as i64 },
        color: c,
    }
}

/// Whether `b` could have been scattered: coordinates in [-300, 300), extents
/// in [-50, 50), a well-formed colour.
pub open spec fn scattered(b: Block) -> bool {
    &&& -SPREAD <= b.pos.x < SPREAD
    &&& -SPREAD <= b.pos.y < SPREAD
    &&& -SIZE_SPREAD <= b.size.x < SIZE_SPREAD
    &&& -SIZE_SPREAD <= b.size.y < SIZE_SPREAD
    &&& b.color.wf()
}

/// The diagonal block of index `i`.
pub fn grid_at(i: usize, c: Rgb) -> (r: Block)
    requires
        i < HALF,
    ensures
        r == grid_block(i as int, c),
{
    let k = i as i64;
    Block {
        pos: Point { x: k * 20_000, y: k * 10_500 },
        size: Point { x: 10_000 + k * 3_000, y: 7_000 + k * 4_000 },
        color: c,
    }
}

fn random_channel(rng: &mut rand::rngs::ThreadRng) -> (r: u16)
    ensures
        r < MILLI,
{
    draw_between(rng, 0, MILLI) as u16
}

/// A colour drawn uniformly, each channel in [0, 1).
pub fn random_color(rng: &mut rand::rngs::ThreadRng) -> (r: Rgb)
    ensures
        r.wf(),
{
    Rgb { r: random_channel(rng), g: random_channel(rng), b: random_channel(rng) }
}

/// A block drawn uniformly: coordinates in [-300, 300), extents in [-50, 50).
pub fn random_block(rng: &mut rand::rngs::ThreadRng) -> (r: Block)
    ensures
        scattered(r),
{
    let x = draw_between(rng, -SPREAD, SPREAD);
    let y = draw_between(rng, -SPREAD, SPREAD);
    let w = draw_between(rng, -SIZE_SPREAD, SIZE_SPREAD);
    let h = draw_between(rng, -SIZE_SPREAD, SIZE_SPREAD);
    Block { pos: Point { x, y }, size: Point { x: w, y: h }, color: random_color(rng) }
}

/// The speeds that move one block in one frame, drawn uniformly from their
/// ranges.
pub fn random_nudge(rng: &mut rand::rngs::ThreadRng) -> (r: Nudge)
    ensures
        r.wf(),
{
    let dx = draw_between(rng, -DRIFT, DRIFT);
    let dy = draw_between(rng, -DRIFT, DRIFT);
    let dw = draw_between(rng, -GROWTH, GROWTH);
    let dh = draw_between(rng, -GROWTH, GROWTH);
    let pull = draw_between(rng, 0, PULL);
    Nudge { dx, dy, dw, dh, pull }
}

/// The whole scene: the blocks in drawing order.
pub struct Model {
    pub blocks: Vec<Block>,
}

impl Model {
    /// The scene as it is laid out: diagonal blocks first, growing with their
    /// index, then scattered ones.
    pub open spec fn laid_out(self) -> bool {
        &&& self.blocks.len() == 2 * HALF
        &&& forall|i: int|
            0 <= i < HALF ==> {
                &&& #[trigger] self.blocks@[i].pos == grid_block(i, self.blocks@[i].color).pos
                &&& self.blocks@[i].size == grid_block(i, self.blocks@[i].color).size
                &&& self.blocks@[i].color.wf()
            }
        &&& forall|i: int| HALF <= i < 2 * HALF ==> scattered(#[trigger] self.blocks@[i])
    }

    /// The scene built from the colours of its diagonal blocks and from its
    /// scattered blocks.
    pub fn arranged(colors: &Vec<Rgb>, scatter: &Vec<Block>) -> (r: Model)
        requires
            colors.len() == HALF,
        ensures
            r.blocks@ == Seq::new(HALF as nat, |i: int| grid_block(i, colors@[i])) + scatter@,
    {
        let mut blocks: Vec<Block> = Vec::new();
        let mut i: usize = 0;
        while i < HALF
            invariant
                colors.len() == HALF,
                i <= HALF,
                blocks@ == Seq::new(i as nat, |k: int| grid_block(k, colors@[k])),
            decreases HALF - i,
        {
            blocks.push(grid_at(i, colors[i]));
            i = i + 1;
            assert(blocks@ =~= Seq::new(i as nat, |k: int| grid_block(k, colors@[k])));
        }
        let ghost diagonal = blocks@;
        let mut j: usize = 0;
        while j < scatter.len()
            invariant
                j <= scatter.len(),
                blocks@ == diagonal + scatter@.subrange(0, j as int),
            decreases scatter.len() - j,
        {
            blocks.push(scatter[j]);
            j = j + 1;
            assert(blocks@ =~= diagonal + scatter@.subrange(0, j as int));
        }
        assert(scatter@.subrange(0, j as int) =~= scatter@);
        Model { blocks }
    }

    /// A fresh scene: fifty blocks on the diagonal with random colours, then
    /// fifty placed, sized and coloured at random.
    pub fn new() -> (r: Model)
        ensures
            r.laid_out(),
    {
        let mut rng = rand::thread_rng();
        let mut colors: Vec<Rgb> = Vec::new();
        let mut scatter: Vec<Block> = Vec::new();
        let mut i: usize = 0;
        while i < HALF
            invariant
                i <= HALF,
                colors.len() == i,
                scatter.len() == i,
                forall|k: int| 0 <= k < i ==> (#[trigger] colors@[k]).wf(),
                forall|k: int| 0 <= k < i ==> scattered(#[trigger] scatter@[k]),
            decreases HALF - i,
        {
            colors.push(random_color(&mut rng));
            scatter.push(random_block(&mut rng));
            i = i + 1;
        }
        let r = Model::arranged(&colors, &scatter);
        assert forall|k: int| HALF <= k < 2 * HALF implies scattered(#[trigger] r.blocks@[k]) by {
            assert(r.blocks@[k] == scatter@[k - HALF]);
        }
        r
    }
}

/// Moves every block of the scene through one frame of `dt` milliseconds,
/// by speeds drawn at random: the scene is then what `scene_after` gives for
/// some nudges that lie in their ranges. No block is made or lost, each
/// coordinate moves by at most 300 units per second, each extent by at most
/// 30, and with no time elapsed nothing moves.
pub fn update(model: &mut Model, dt: u32, mouse: Mouse)
    ensures
        final(model).blocks.len() == old(model).blocks.len(),
        exists|ns: Seq<Nudge>|
            ns.len() == old(model).blocks.len() && all_wf(ns) && final(model).blocks@ == scene_after(
                old(model).blocks@,
                ns,
                mouse,
                dt as int,
            ),
        forall|i: int|
            0 <= i < old(model).blocks.len() ==> {
                &&& gap(#[trigger] final(model).blocks@[i].pos.x as int, old(model).blocks@[i].pos.x as int)
                    <= (DRIFT + PULL) * dt
                &&& gap(final(model).blocks@[i].pos.y as int, old(model).blocks@[i].pos.y as int)
                    <= (DRIFT + PULL) * dt
                &&& gap(final(model).blocks@[i].size.x as int, old(model).blocks@[i].size.x as int)
                    <= GROWTH * dt
                &&& gap(final(model).blocks@[i].size.y as int, old(model).blocks@[i].size.y as int)
                    <= GROWTH * dt
                &&& final(model).blocks@[i].color == old(model).blocks@[i].color
            },
        dt == 0 ==> final(model).blocks@ == old(model).blocks@,
{
    let mut rng = rand::thread_rng();
    let mut nudges: Vec<Nudge> = Vec::new();
    let mut i: usize = 0;
    while i < model.blocks.len()
        invariant
            i <= model.blocks.len(),
            nudges.len() == i,
            all_wf(nudges@),
        decreases model.blocks.len() - i,
    {
        nudges.push(random_nudge(&mut rng));
        i = i + 1;
    }
    let ghost start = model.blocks@;
    advance(&mut model.blocks, &nudges, mouse, dt);
    proof {
        assert forall|i: int| 0 <= i < start.len() implies {
            &&& gap(#[trigger] model.blocks@[i].pos.x as int, start[i].pos.x as int) <= (DRIFT
                + PULL) * dt
            &&& gap(model.blocks@[i].pos.y as int, start[i].pos.y as int) <= (DRIFT + PULL) * dt
            &&& gap(model.blocks@[i].size.x as int, start[i].size.x as int) <= GROWTH * dt
            &&& gap(model.blocks@[i].size.y as int, start[i].size.y as int) <= GROWTH * dt
            &&& model.blocks@[i].color == start[i].color
        } by {
            assert(model.blocks@[i] == stepped(start[i], nudges@[i], mouse, dt as int));
            lemma_step_bounded(start[i], nudges@[i], mouse, dt as nat);
        }
        if dt == 0 {
            lemma_still_frame(start, nudges@, mouse);
        }
    }
}

} // verus!
