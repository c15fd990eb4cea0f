//! End-to-end tests of the simulation core, on a configuration with the
//! canonical arena geometry (all lengths in tenths of a world unit).

use breakout_core::collide::{collide, Edge};
use breakout_core::frame::{confirm_step, frame};
use breakout_core::geom::{isqrt, normalize, Vec2i};
use breakout_core::hud::score_digits;
use breakout_core::phase::{confirm_next, Phase};
use breakout_core::state::{count_alive, new_world, reset_round, Config, Input, World};
use breakout_core::{DIR_UNIT, DT_MAX};

/// The canonical configuration: an 800 x 600 arena with a 30-unit top bar,
/// a 4 x 9 brick grid, in tenths of a unit.
fn cfg() -> Config {
    Config {
        arena_w: 8000,
        arena_h: 6000,
        topbar_h: 300,
        brick_begin_x: -3000,
        brick_begin_y: 1500,
        brick_rows: 4,
        brick_cols: 9,
        brick_w: 675,
        brick_h: 228,
        brick_gap: 80,
        paddle_w: 1010,
        paddle_h: 216,
        paddle_y: -2800,
        paddle_speed: 5000,
        ball_size: 146,
        ball_speed: 5000,
        initial_lives: 3,
    }
}

fn idle() -> Input {
    Input { confirm: false, left: false, right: false }
}

fn press() -> Input {
    Input { confirm: true, left: false, right: false }
}

fn playing_world(c: &Config) -> World {
    let mut w = new_world(c);
    confirm_step(&mut w, c, true); // Welcome -> WaitLaunch (round init)
    confirm_step(&mut w, c, true); // WaitLaunch -> Playing
    w
}

#[test]
fn phase_table_is_exact() {
    assert_eq!(confirm_next(Phase::Welcome), Phase::WaitLaunch);
    assert_eq!(confirm_next(Phase::WaitLaunch), Phase::Playing);
    assert_eq!(confirm_next(Phase::Playing), Phase::Pause);
    assert_eq!(confirm_next(Phase::Pause), Phase::Playing);
    assert_eq!(confirm_next(Phase::GameOverScreen), Phase::Welcome);
    assert_eq!(confirm_next(Phase::WinScreen), Phase::Welcome);
}

#[test]
fn confirm_never_leaves_the_table_and_never_self_loops() {
    let all = [
        Phase::Welcome,
        Phase::WaitLaunch,
        Phase::Playing,
        Phase::Pause,
        Phase::GameOverScreen,
        Phase::WinScreen,
    ];
    for p in all {
        let q = confirm_next(p);
        assert!(all.contains(&q));
        assert_ne!(p, q);
        if q == Phase::Pause {
            assert_eq!(p, Phase::Playing);
        }
    }
}

#[test]
fn isqrt_exact_values() {
    assert_eq!(isqrt(0), 0);
    assert_eq!(isqrt(1), 1);
    assert_eq!(isqrt(3), 1);
    assert_eq!(isqrt(4), 2);
    assert_eq!(isqrt(99), 9);
    assert_eq!(isqrt(100), 10);
    assert_eq!(isqrt(25_000_000_000_000), 5_000_000);
    assert_eq!(isqrt(u64::MAX), 4_294_967_295);
}

#[test]
fn normalize_three_four_five() {
    // A 3-4-5 triangle lands exactly on the unit circle.
    let r = normalize(Vec2i { x: 300, y: 400 });
    assert_eq!(r, Vec2i { x: 6000, y: 8000 });
    let r = normalize(Vec2i { x: -300, y: 400 });
    assert_eq!(r, Vec2i { x: -6000, y: 8000 });
    let r = normalize(Vec2i { x: 300, y: -400 });
    assert_eq!(r, Vec2i { x: 6000, y: -8000 });
}

#[test]
fn normalize_is_near_unit() {
    for (x, y) in [(1, 1), (7071, 7071), (40_000, -40_000), (1, 39_999), (-5, 3)] {
        let r = normalize(Vec2i { x, y });
        let n2 = r.x * r.x + r.y * r.y;
        let u = DIR_UNIT;
        assert!(u * u - 4 * u <= n2 && n2 <= u * u + 4 * u, "norm^2 {} off unit", n2);
        assert!(r.x.signum() * x.signum() >= 0);
        assert!(r.y.signum() * y.signum() >= 0);
    }
}

#[test]
fn collide_classifies_edges() {
    // A 2x2 box against a 4x2 box at the origin.
    assert_eq!(collide(0, 0, 2, 2, 0, 0, 4, 2), Some(Edge::Inside));
    assert_eq!(collide(-2, 0, 2, 2, 0, 0, 4, 2), Some(Edge::Left));
    assert_eq!(collide(2, 0, 2, 2, 0, 0, 4, 2), Some(Edge::Right));
    assert_eq!(collide(0, -1, 2, 2, 0, 0, 4, 2), Some(Edge::Bottom));
    assert_eq!(collide(0, 1, 2, 2, 0, 0, 4, 2), Some(Edge::Top));
    assert_eq!(collide(10, 0, 2, 2, 0, 0, 4, 2), None);
    assert_eq!(collide(0, 10, 2, 2, 0, 0, 4, 2), None);
    // Touching extents do not overlap (strict comparison).
    assert_eq!(collide(3, 0, 2, 2, 0, 0, 4, 2), None);
}

#[test]
fn round_reset_lays_out_the_grid() {
    // The layout formula, checked against known positions: with a zero top
    // bar, brick (0,0) sits at the grid origin and brick (1,0) one brick
    // width plus one gap to the right.
    let mut c = cfg();
    c.topbar_h = 0;
    let w = new_world(&c);
    assert_eq!(w.bricks.len(), 36);
    assert_eq!(w.bricks[0].x, -3000);
    assert_eq!(w.bricks[0].y, 1500);
    assert_eq!(w.bricks[1].x, -3000 + 755);
    assert_eq!(w.bricks[1].y, 1500);
    // Column varies fastest: brick (0,1) is one row up, 9 entries later.
    assert_eq!(w.bricks[9].x, -3000);
    assert_eq!(w.bricks[9].y, 1500 + 308);
    assert!(w.bricks.iter().all(|b| b.alive));
}

#[test]
fn entering_wait_launch_resets_the_round() {
    let c = cfg();
    let mut w = playing_world(&c);
    // Damage the round: destroy a brick's worth of state by simulating a
    // score and a lost life, then walk back to Welcome and confirm.
    w.phase = Phase::GameOverScreen;
    confirm_step(&mut w, &c, true);
    assert_eq!(w.phase, Phase::Welcome);
    confirm_step(&mut w, &c, true);
    assert_eq!(w.phase, Phase::WaitLaunch);
    assert_eq!(w.score, 0);
    assert_eq!(w.lives, 3);
    assert_eq!(count_alive(&w.bricks), 36);
    assert_eq!(w.paddle_x, 0);
    assert_eq!(w.ball.dir, Vec2i { x: 7071, y: 7071 });
}

#[test]
fn paddle_stays_clamped_whatever_the_input() {
    let c = cfg();
    let limit = (c.arena_w - c.paddle_w) / 2; // 3495
    let mut w = playing_world(&c);
    let right = Input { confirm: false, left: false, right: true };
    let left = Input { confirm: false, left: true, right: false };
    let both = Input { confirm: false, left: true, right: true };
    frame(&mut w, &c, right, DT_MAX);
    assert_eq!(w.paddle_x, limit);
    frame(&mut w, &c, right, DT_MAX);
    assert_eq!(w.paddle_x, limit);
    frame(&mut w, &c, left, DT_MAX);
    assert_eq!(w.paddle_x, -limit);
    let px = w.paddle_x;
    frame(&mut w, &c, both, 16);
    assert_eq!(w.paddle_x, px);
    for _ in 0..100 {
        frame(&mut w, &c, right, 999_983);
        assert!(-limit <= w.paddle_x && w.paddle_x <= limit);
    }
}

#[test]
fn ball_moves_exactly_in_playing() {
    let c = cfg();
    let mut w = playing_world(&c);
    w.ball.pos = Vec2i { x: 0, y: 0 };
    w.ball.dir = Vec2i { x: 10_000, y: 0 };
    // 10000/10000 * 5000 units/s * 100 ms = 500 units.
    frame(&mut w, &c, idle(), 100);
    assert_eq!(w.ball.pos.x, 500);
    assert_eq!(w.ball.pos.y, 0);
}

#[test]
fn ball_rides_the_paddle_before_launch() {
    let c = cfg();
    let mut w = new_world(&c);
    confirm_step(&mut w, &c, true);
    assert_eq!(w.phase, Phase::WaitLaunch);
    let right = Input { confirm: false, left: false, right: true };
    frame(&mut w, &c, right, 100);
    // ride_y = paddle_y + (paddle_h + ball_size)/2 + 1 = -2800 + 181 + 1.
    assert_eq!(w.ball.pos.y, -2618);
    assert_eq!(w.ball.pos.x, w.paddle_x);
    assert!(w.paddle_x > 0);
}

#[test]
fn ball_rides_the_paddle_on_the_title_screen() {
    let c = cfg();
    let mut w = new_world(&c);
    w.ball.pos = Vec2i { x: 500, y: 500 };
    frame(&mut w, &c, idle(), 16);
    assert_eq!(w.phase, Phase::Welcome);
    assert_eq!(w.ball.pos, Vec2i { x: 0, y: -2618 });
    // The paddle does not answer input on the title screen.
    frame(&mut w, &c, Input { confirm: false, left: false, right: true }, 1000);
    assert_eq!(w.paddle_x, 0);
}

#[test]
fn confirm_precedes_motion_within_a_frame() {
    // A confirm on the title screen resets the round, and the same frame's
    // motion already acts on the new phase: the ball ends glued.
    let c = cfg();
    let mut w = new_world(&c);
    frame(&mut w, &c, press(), 16);
    assert_eq!(w.phase, Phase::WaitLaunch);
    assert_eq!(w.ball.pos, Vec2i { x: 0, y: -2618 });
}

#[test]
fn nothing_moves_in_pause() {
    let c = cfg();
    let mut w = playing_world(&c);
    w.ball.pos = Vec2i { x: 123, y: 456 };
    frame(&mut w, &c, press(), 100); // Playing -> Pause; frozen frame
    assert_eq!(w.phase, Phase::Pause);
    let pos = w.ball.pos;
    let px = w.paddle_x;
    frame(&mut w, &c, Input { confirm: false, left: true, right: false }, 1000);
    assert_eq!(w.ball.pos, pos);
    assert_eq!(w.paddle_x, px);
    frame(&mut w, &c, press(), 100); // Pause -> Playing
    assert_eq!(w.phase, Phase::Playing);
}

#[test]
fn wall_bounce_flips_direction_exactly() {
    let c = cfg();
    let border = (c.arena_w - c.ball_size) / 2; // 3927
    let mut w = playing_world(&c);
    w.ball.pos = Vec2i { x: border + 1, y: 0 };
    w.ball.dir = Vec2i { x: 10_000, y: 0 };
    frame(&mut w, &c, idle(), 0);
    assert_eq!(w.ball.dir.x, -10_000);
    assert_eq!(w.ball.dir.y, 0);
    // And symmetrically off the left wall.
    w.ball.pos = Vec2i { x: -border - 1, y: 0 };
    frame(&mut w, &c, idle(), 0);
    assert_eq!(w.ball.dir.x, 10_000);
}

#[test]
fn ceiling_clamps_and_flips() {
    let c = cfg();
    let ceiling = (c.arena_h - c.ball_size) / 2 - c.topbar_h; // 2627
    let mut w = playing_world(&c);
    w.ball.pos = Vec2i { x: 0, y: ceiling + 50 };
    w.ball.dir = Vec2i { x: 0, y: 10_000 };
    frame(&mut w, &c, idle(), 0);
    assert_eq!(w.ball.pos.y, ceiling - 1);
    assert_eq!(w.ball.dir.y, -10_000);
    assert_eq!(w.ball.dir.x, 0);
}

#[test]
fn paddle_hit_steers_and_renormalizes() {
    let c = cfg();
    let mut w = playing_world(&c);
    // Overlap the paddle right of center, moving straight down.
    w.ball.pos = Vec2i { x: 200, y: -2700 };
    w.ball.dir = Vec2i { x: 0, y: -10_000 };
    frame(&mut w, &c, idle(), 0);
    // The bounce sends it up and to the right, at near unit length.
    assert!(w.ball.dir.y > 0, "bounced up");
    assert!(w.ball.dir.x > 0, "steered right");
    let n2 = w.ball.dir.x * w.ball.dir.x + w.ball.dir.y * w.ball.dir.y;
    assert!(DIR_UNIT * DIR_UNIT - 4 * DIR_UNIT <= n2);
    assert!(n2 <= DIR_UNIT * DIR_UNIT + 4 * DIR_UNIT);
    // Hitting left of center steers left.
    w.ball.pos = Vec2i { x: -200, y: -2700 };
    w.ball.dir = Vec2i { x: 0, y: -10_000 };
    frame(&mut w, &c, idle(), 0);
    assert!(w.ball.dir.x < 0, "steered left");
    assert!(w.ball.dir.y > 0);
}

#[test]
fn brick_hit_destroys_scores_and_bounces() {
    let c = cfg();
    let mut w = playing_world(&c);
    // Brick 0 sits at (-3000, 1200); approach it from below.
    assert_eq!(w.bricks[0].x, -3000);
    assert_eq!(w.bricks[0].y, 1200);
    w.ball.pos = Vec2i { x: -3000, y: 1050 };
    w.ball.dir = Vec2i { x: 0, y: 10_000 };
    frame(&mut w, &c, idle(), 0);
    assert!(!w.bricks[0].alive);
    assert_eq!(w.score, 1);
    assert_eq!(w.ball.dir, Vec2i { x: 0, y: -10_000 });
    assert_eq!(count_alive(&w.bricks), 35);
    // Destruction is permanent: the same spot scores nothing more.
    w.ball.pos = Vec2i { x: -3000, y: 1050 };
    w.ball.dir = Vec2i { x: 0, y: 10_000 };
    frame(&mut w, &c, idle(), 0);
    assert_eq!(w.score, 1);
    assert_eq!(count_alive(&w.bricks), 35);
}

#[test]
fn survivors_never_increase_and_score_matches() {
    let c = cfg();
    let mut w = playing_world(&c);
    w.ball.dir = Vec2i { x: 7071, y: 7071 };
    let mut last_alive = count_alive(&w.bricks);
    for i in 0..2000 {
        let inp = Input { confirm: false, left: i % 3 == 0, right: i % 5 == 0 };
        frame(&mut w, &c, inp, 16);
        if w.phase != Phase::Playing {
            break;
        }
        let alive = count_alive(&w.bricks);
        assert!(alive <= last_alive, "a brick came back");
        assert_eq!(w.score as i64, 36 - alive as i64);
        last_alive = alive;
    }
}

#[test]
fn losing_the_last_life_ends_the_game() {
    let c = cfg();
    let mut w = playing_world(&c);
    w.lives = 1;
    w.ball.pos = Vec2i { x: 0, y: -3001 };
    w.ball.dir = Vec2i { x: 0, y: -10_000 };
    frame(&mut w, &c, idle(), 0);
    assert_eq!(w.phase, Phase::GameOverScreen);
    assert_eq!(w.lives, 1);
}

#[test]
fn losing_a_spare_life_resets_the_serve() {
    let c = cfg();
    let mut w = playing_world(&c);
    assert_eq!(w.lives, 3);
    w.ball.pos = Vec2i { x: 77, y: -3001 };
    w.ball.dir = Vec2i { x: 0, y: -10_000 };
    let score_before = w.score;
    frame(&mut w, &c, idle(), 0);
    assert_eq!(w.phase, Phase::WaitLaunch);
    assert_eq!(w.lives, 2);
    assert_eq!(w.ball.dir, Vec2i { x: 7071, y: 7071 });
    assert_eq!(w.score, score_before);
    assert_eq!(count_alive(&w.bricks), 36);
}

#[test]
fn destroying_the_last_brick_wins() {
    let c = cfg();
    let mut w = playing_world(&c);
    // All but brick 0 already destroyed (with the matching score).
    for i in 1..36 {
        w.bricks[i].alive = false;
    }
    w.score = 35;
    w.ball.pos = Vec2i { x: -3000, y: 1050 };
    w.ball.dir = Vec2i { x: 0, y: 10_000 };
    frame(&mut w, &c, idle(), 0);
    assert_eq!(w.score, 36);
    assert_eq!(count_alive(&w.bricks), 0);
    assert_eq!(w.phase, Phase::WinScreen);
    // Confirm returns to the title screen.
    frame(&mut w, &c, press(), 16);
    assert_eq!(w.phase, Phase::Welcome);
}

#[test]
fn simulated_round_reaches_game_over() {
    // With one life, a ball heading straight down past the paddle must
    // fall below the arena within a bounded number of frames and end the
    // game.
    let c = cfg();
    let mut w = new_world(&c);
    confirm_step(&mut w, &c, true);
    w.lives = 1;
    confirm_step(&mut w, &c, true);
    assert_eq!(w.phase, Phase::Playing);
    w.ball.pos = Vec2i { x: 2000, y: 0 };
    w.ball.dir = Vec2i { x: 0, y: -10_000 };
    let mut saw_game_over = false;
    for _ in 0..1000 {
        frame(&mut w, &c, idle(), 16);
        if w.phase == Phase::GameOverScreen {
            saw_game_over = true;
            break;
        }
    }
    assert!(saw_game_over, "round never ended");
}

#[test]
fn score_digits_render_decimal() {
    assert_eq!(score_digits(0), b"0".to_vec());
    assert_eq!(score_digits(7), b"7".to_vec());
    assert_eq!(score_digits(36), b"36".to_vec());
    assert_eq!(score_digits(100), b"100".to_vec());
    assert_eq!(score_digits(10_230), b"10230".to_vec());
    assert_eq!(score_digits(u32::MAX), b"4294967295".to_vec());
}

#[test]
fn reset_round_matches_new_world() {
    let c = cfg();
    let a = new_world(&c);
    let b = reset_round(&c, Phase::Welcome);
    assert_eq!(a.phase, b.phase);
    assert_eq!(a.score, b.score);
    assert_eq!(a.lives, b.lives);
    assert_eq!(a.paddle_x, b.paddle_x);
    assert_eq!(a.ball.pos, b.ball.pos);
    assert_eq!(a.ball.dir, b.ball.dir);
    assert_eq!(a.bricks, b.bricks);
}
