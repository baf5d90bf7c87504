use blocks::geometry::{add_clipped, is_near, Block, Mouse, Point, Rgb};
use blocks::motion::{advance, step_block, Nudge};
use blocks::scene::{grid_at, random_block, random_color, random_nudge, update, Model, HALF};

fn plain_block(x: i64, y: i64) -> Block {
    Block { pos: Point::new(x, y), size: Point::new(5_000, 6_000), color: Rgb { r: 1, g: 2, b: 3 } }
}

fn far_mouse() -> Mouse {
    Mouse { x: 0, y: 0, in_window: false, left_down: false }
}

#[test]
fn diagonal_blocks_grow_with_index() {
    let model = Model::new();
    assert_eq!(model.blocks.len(), 2 * HALF);
    for i in 0..HALF {
        let b = &model.blocks[i];
        let k = i as i64;
        assert_eq!(b.pos, Point::new(k * 20_000, k * 10_500));
        assert_eq!(b.size, Point::new(10_000 + 3_000 * k, 7_000 + 4_000 * k));
        assert!(b.color.r < 1000 && b.color.g < 1000 && b.color.b < 1000);
    }
}

#[test]
fn last_diagonal_block() {
    let c = Rgb { r: 5, g: 6, b: 7 };
    let b = grid_at(49, c);
    assert_eq!(b.pos, Point::new(980_000, 514_500));
    assert_eq!(b.size, Point::new(157_000, 203_000));
    assert_eq!(b.color, c);
}

#[test]
fn scattered_blocks_stay_in_their_square() {
    let model = Model::new();
    for b in &model.blocks[HALF..] {
        assert!(-300_000 <= b.pos.x && b.pos.x < 300_000);
        assert!(-300_000 <= b.pos.y && b.pos.y < 300_000);
        assert!(-50_000 <= b.size.x && b.size.x < 50_000);
        assert!(-50_000 <= b.size.y && b.size.y < 50_000);
    }
}

#[test]
fn random_draws_vary() {
    let mut rng = rand::thread_rng();
    let first = random_block(&mut rng);
    let mut differs = false;
    for _ in 0..200 {
        let b = random_block(&mut rng);
        if b != first {
            differs = true;
        }
        let c = random_color(&mut rng);
        assert!(c.r < 1000 && c.g < 1000 && c.b < 1000);
        let n = random_nudge(&mut rng);
        assert!(-100 <= n.dx && n.dx < 100 && -100 <= n.dy && n.dy < 100);
        assert!(-30 <= n.dw && n.dw < 30 && -30 <= n.dh && n.dh < 30);
        assert!(0 <= n.pull && n.pull < 200);
    }
    assert!(differs);
}

#[test]
fn arranged_puts_diagonal_first() {
    let colors: Vec<Rgb> = (0..50u16).map(|i| Rgb { r: i, g: 0, b: 999 }).collect();
    let scatter = vec![plain_block(1, 2), plain_block(3, 4)];
    let model = Model::arranged(&colors, &scatter);
    assert_eq!(model.blocks.len(), 52);
    assert_eq!(model.blocks[10], grid_at(10, colors[10]));
    assert_eq!(model.blocks[50], scatter[0]);
    assert_eq!(model.blocks[51], scatter[1]);
}

#[test]
fn one_frame_moves_within_bounds() {
    let mut model = Model::new();
    let before = model.blocks.clone();
    let mouse = Mouse { x: 10_000, y: -20_000, in_window: true, left_down: true };
    update(&mut model, 16, mouse);
    for (a, b) in before.iter().zip(model.blocks.iter()) {
        assert!((a.pos.x - b.pos.x).abs() <= 300 * 16);
        assert!((a.pos.y - b.pos.y).abs() <= 300 * 16);
        assert!((a.size.x - b.size.x).abs() <= 30 * 16);
        assert!((a.size.y - b.size.y).abs() <= 30 * 16);
        assert_eq!(a.color, b.color);
    }
}

#[test]
fn pressed_button_pushes_near_block_away() {
    let b = plain_block(0, 0);
    let n = Nudge { dx: 10, dy: -10, dw: 1, dh: 2, pull: 100 };
    let m = Mouse { x: 50_000, y: 50_000, in_window: true, left_down: true };
    let r = step_block(b, n, m, 16);
    assert_eq!(r.pos, Point::new(160 - 1_600, -160 - 1_600));
    assert_eq!(r.size, Point::new(5_016, 6_032));
}

#[test]
fn released_button_pulls_block_closer() {
    let b = plain_block(0, 0);
    let n = Nudge { dx: 10, dy: -10, dw: 1, dh: 2, pull: 100 };
    let m = Mouse { x: 50_000, y: -50_000, in_window: true, left_down: false };
    let r = step_block(b, n, m, 16);
    assert_eq!(r.pos, Point::new(160 + 1_600, -160 - 1_600));
}

#[test]
fn pressed_button_pulls_far_block() {
    let b = plain_block(0, 0);
    let n = Nudge { dx: 0, dy: 0, dw: 0, dh: 0, pull: 199 };
    let m = Mouse { x: -100_000, y: 0, in_window: true, left_down: true };
    let r = step_block(b, n, m, 10);
    assert_eq!(r.pos, Point::new(-1_990, 1_990));
}

#[test]
fn cursor_outside_windows_leaves_jitter_alone() {
    let b = plain_block(7, 7);
    let n = Nudge { dx: -100, dy: 99, dw: -30, dh: 29, pull: 150 };
    let r = step_block(b, n, far_mouse(), 1_000);
    assert_eq!(r.pos, Point::new(7 - 100_000, 7 + 99_000));
    assert_eq!(r.size, Point::new(5_000 - 30_000, 6_000 + 29_000));
}

#[test]
fn advance_moves_each_block_by_its_own_nudge() {
    let mut blocks = vec![plain_block(0, 0), plain_block(1_000, 1_000)];
    let nudges = vec![
        Nudge { dx: 1, dy: 2, dw: 0, dh: 0, pull: 0 },
        Nudge { dx: -1, dy: -2, dw: 3, dh: -3, pull: 0 },
    ];
    advance(&mut blocks, &nudges, far_mouse(), 100);
    assert_eq!(blocks[0].pos, Point::new(100, 200));
    assert_eq!(blocks[1].pos, Point::new(900, 800));
    assert_eq!(blocks[1].size, Point::new(5_300, 5_700));
}

#[test]
fn block_count_never_changes() {
    let mut model = Model::new();
    let mouse = Mouse { x: 0, y: 0, in_window: true, left_down: true };
    for dt in 0..40u32 {
        update(&mut model, dt, mouse);
        assert_eq!(model.blocks.len(), 100);
    }
}

#[test]
fn two_still_frames_change_nothing() {
    let mut model = Model::new();
    let before = model.blocks.clone();
    let mouse = Mouse { x: 3_000, y: 4_000, in_window: true, left_down: true };
    update(&mut model, 0, mouse);
    update(&mut model, 0, mouse);
    assert_eq!(model.blocks, before);
}

#[test]
fn sums_saturate_at_the_limits() {
    assert_eq!(add_clipped(i64::MAX, 5), i64::MAX);
    assert_eq!(add_clipped(i64::MIN, -5), i64::MIN);
    assert_eq!(add_clipped(-7, 3), -4);
}

#[test]
fn reach_is_strict() {
    let m = Mouse { x: 0, y: 0, in_window: true, left_down: true };
    assert!(!is_near(Point::new(100_000, 0), m));
    assert!(is_near(Point::new(99_999, 0), m));
    assert!(is_near(Point::new(60_000, 79_999), m));
    assert!(!is_near(Point::new(60_000, 80_000), m));
    assert!(!is_near(Point::new(i64::MIN, i64::MAX), m));
}

#[test]
fn moves_saturate_far_out() {
    let b = plain_block(i64::MAX - 10, 0);
    let n = Nudge { dx: 99, dy: 0, dw: 0, dh: 0, pull: 0 };
    let r = step_block(b, n, far_mouse(), 1_000);
    assert_eq!(r.pos.x, i64::MAX);
}
