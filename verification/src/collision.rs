//! The collision resolver: runs once per frame while `Playing`, checking in
//! a fixed order — side walls, then ceiling, then paddle, then each brick —
//! and finally the loss and win conditions.  More than one check may fire
//! in the same frame.
//!
//! Wall and ceiling contact negate one direction component; the ceiling
//! also clamps the ball just below itself.  A paddle hit negates the
//! vertical component and steers the horizontal one by where the ball
//! struck ("English"), then re-normalizes; if the steering would cancel
//! the direction to zero, the pre-bounce direction is kept instead of
//! propagating an undefined normalization.  Each surviving brick the ball
//! overlaps is destroyed, scores one point, and bounces the ball off the
//! struck edge — except in the degenerate `Inside` case, which applies no
//! direction change.  There is no bottom wall: falling past the bottom
//! loses a life (or the round), and an empty grid wins it.

use vstd::prelude::*;
use crate::{DIR_UNIT, POS_LIMIT};
use crate::collide::{collide, spec_collide, Edge};
use crate::geom::{
    lemma_neg_norm, lemma_normalize_near_unit, near_unit, norm_sq, normalize, spec_normalize,
    Vec2i,
};
use crate::phase::Phase;
use crate::state::{
    alive_count, count_alive, initial_dir, lemma_alive_count_pos, lemma_alive_count_update,
    lemma_brick_pos_bounds, lemma_brick_total_bounds, sim_wf, spec_initial_dir, Brick, Config,
    Sim, World,
};

verus! {

/// The steering a paddle hit imparts: the offset of the ball's center from
/// the paddle's center, as a fixed-point fraction of the paddle's width,
/// truncated toward zero.
pub open spec fn spec_english(off: int, pw: int) -> int {
    if off >= 0 {
        off * DIR_UNIT / pw
    } else {
        -(-off * DIR_UNIT / pw)
    }
}

/// Side walls: beyond either border, the horizontal direction flips.
pub open spec fn spec_wall(cfg: Config, s: Sim) -> Sim {
    if s.pos_x < -cfg.wall_border() || s.pos_x > cfg.wall_border() {
        Sim { dir_x: -s.dir_x, ..s }
    } else {
        s
    }
}

/// Ceiling: above the threshold, the ball is clamped just below it and the
/// vertical direction flips.
pub open spec fn spec_ceiling(cfg: Config, s: Sim) -> Sim {
    if s.pos_y > cfg.ceiling_y() {
        Sim { pos_y: cfg.ceiling_y() - 1, dir_y: -s.dir_y, ..s }
    } else {
        s
    }
}

/// Paddle: on overlap, flip the vertical direction, steer the horizontal
/// one by the hit offset, and re-normalize; keep the pre-bounce direction
/// if the steering cancels everything to zero.
pub open spec fn spec_paddle(cfg: Config, s: Sim) -> Sim {
    let hit = spec_collide(
        s.pos_x, s.pos_y, cfg.ball_size as int, cfg.ball_size as int,
        s.paddle_x, cfg.paddle_y as int, cfg.paddle_w as int, cfg.paddle_h as int,
    );
    if hit is Some {
        let e = spec_english(s.pos_x - s.paddle_x, cfg.paddle_w as int);
        let cx = s.dir_x + e;
        let cy = -s.dir_y;
        if cx == 0 && cy == 0 {
            s
        } else {
            let nd = spec_normalize(Vec2i { x: cx as i64, y: cy as i64 });
            Sim { dir_x: nd.x as int, dir_y: nd.y as int, ..s }
        }
    } else {
        s
    }
}

/// One brick: a surviving, overlapping brick is destroyed, scores one
/// point, and bounces the ball off the struck edge (`Inside` bounces
/// nothing).
pub open spec fn spec_brick_hit(cfg: Config, s: Sim, i: int) -> Sim {
    let b = s.bricks[i];
    let hit = spec_collide(
        s.pos_x, s.pos_y, cfg.ball_size as int, cfg.ball_size as int,
        b.x as int, b.y as int, cfg.brick_w as int, cfg.brick_h as int,
    );
    if b.alive && hit is Some {
        let s1 = Sim {
            bricks: s.bricks.update(i, Brick { x: b.x, y: b.y, alive: false }),
            score: s.score + 1,
            ..s
        };
        match hit->Some_0 {
            Edge::Left | Edge::Right => Sim { dir_x: -s1.dir_x, ..s1 },
            Edge::Top | Edge::Bottom => Sim { dir_y: -s1.dir_y, ..s1 },
            Edge::Inside => s1,
        }
    } else {
        s
    }
}

/// The brick pass from index `i` on: every brick is tested, in order,
/// against the ball's (fixed) position, each hit applying its own bounce.
pub open spec fn spec_bricks_from(cfg: Config, s: Sim, i: nat) -> Sim
    decreases s.bricks.len() - i,
{
    if i >= s.bricks.len() {
        s
    } else {
        spec_bricks_from(cfg, spec_brick_hit(cfg, s, i as int), i + 1)
    }
}

/// Loss check: a ball below the arena's bottom ends the round when this
/// was the last life, and otherwise costs one life and returns to the
/// serve, the ball reset to the center with its initial direction.
pub open spec fn spec_loss(cfg: Config, s: Sim) -> Sim {
    if s.pos_y < cfg.bottom_y() {
        if s.lives <= 1 {
            Sim { phase: Phase::GameOverScreen, ..s }
        } else {
            Sim {
                phase: Phase::WaitLaunch,
                lives: s.lives - 1,
                pos_x: 0,
                pos_y: 0,
                dir_x: spec_initial_dir().x as int,
                dir_y: spec_initial_dir().y as int,
                ..s
            }
        }
    } else {
        s
    }
}

/// Win check: with every brick destroyed (and the round still running),
/// the round is won.
pub open spec fn spec_win(s: Sim) -> Sim {
    if s.phase == Phase::Playing && alive_count(s.bricks) == 0 {
        Sim { phase: Phase::WinScreen, ..s }
    } else {
        s
    }
}

/// The whole resolver: a no-op outside `Playing`; otherwise walls, ceiling,
/// paddle, bricks, then the loss and win checks, in that order.
pub open spec fn spec_resolve(cfg: Config, s: Sim) -> Sim {
    if s.phase != Phase::Playing {
        s
    } else {
        spec_win(spec_loss(cfg, spec_bricks_from(cfg, spec_paddle(cfg, spec_ceiling(cfg, spec_wall(cfg, s))), 0)))
    }
}

/// The English stays strictly below one unit for any hit offset strictly
/// inside the paddle's width.
proof fn lemma_english_bound(off: int, pw: int)
    requires
        0 < pw,
        -pw < off < pw,
    ensures
        -DIR_UNIT < spec_english(off, pw) < DIR_UNIT,
{
    let u = DIR_UNIT as int;
    let mag = if off >= 0 { off } else { -off };
    let q = mag * u / pw;
    vstd::arithmetic::div_mod::lemma_fundamental_div_mod(mag * u, pw);
    vstd::arithmetic::div_mod::lemma_mod_bound(mag * u, pw);
    assert(0 <= q && q < u) by (nonlinear_arith)
        requires
            mag * u == pw * q + (mag * u) % pw,
            0 <= (mag * u) % pw < pw,
            0 <= mag <= pw - 1,
            0 < u,
            0 < pw,
    ;
    assert(spec_english(off, pw) == if off >= 0 { q } else { -q }) by (nonlinear_arith)
        requires
            q == mag * u / pw,
            mag == if off >= 0 { off } else { -off },
            spec_english(off, pw) == if off >= 0 { off * u / pw } else { -(-off * u / pw) },
    ;
}

/// The wall stage only flips `dir_x`, preserving the invariant.
proof fn lemma_wall_wf(cfg: Config, s: Sim)
    requires
        cfg.wf(),
        sim_wf(cfg, s),
    ensures
        sim_wf(cfg, spec_wall(cfg, s)),
        spec_wall(cfg, s) == (Sim { dir_x: spec_wall(cfg, s).dir_x, ..s }),
{
    lemma_neg_norm(s.dir_x, s.dir_y);
    assert(spec_wall(cfg, s) =~= Sim { dir_x: spec_wall(cfg, s).dir_x, ..s });
}

/// The ceiling stage clamps `pos_y` and flips `dir_y`, preserving the
/// invariant.
proof fn lemma_ceiling_wf(cfg: Config, s: Sim)
    requires
        cfg.wf(),
        sim_wf(cfg, s),
    ensures
        sim_wf(cfg, spec_ceiling(cfg, s)),
        spec_ceiling(cfg, s) == (Sim {
            pos_y: spec_ceiling(cfg, s).pos_y,
            dir_y: spec_ceiling(cfg, s).dir_y,
            ..s
        }),
{
    lemma_neg_norm(s.dir_x, s.dir_y);
    assert(-2_000_000 <= cfg.ceiling_y() <= 2_000_000);
    assert(spec_ceiling(cfg, s) =~= Sim {
        pos_y: spec_ceiling(cfg, s).pos_y,
        dir_y: spec_ceiling(cfg, s).dir_y,
        ..s
    });
}

/// The paddle stage only rewrites the direction, to a near-unit vector.
proof fn lemma_paddle_wf(cfg: Config, s: Sim)
    requires
        cfg.wf(),
        sim_wf(cfg, s),
    ensures
        sim_wf(cfg, spec_paddle(cfg, s)),
        spec_paddle(cfg, s) == (Sim {
            dir_x: spec_paddle(cfg, s).dir_x,
            dir_y: spec_paddle(cfg, s).dir_y,
            ..s
        }),
{
    let hit = spec_collide(
        s.pos_x, s.pos_y, cfg.ball_size as int, cfg.ball_size as int,
        s.paddle_x, cfg.paddle_y as int, cfg.paddle_w as int, cfg.paddle_h as int,
    );
    if hit is Some {
        let off = s.pos_x - s.paddle_x;
        let pw = cfg.paddle_w as int;
        assert(-pw < off < pw);
        lemma_english_bound(off, pw);
        let e = spec_english(off, pw);
        let cx = s.dir_x + e;
        let cy = -s.dir_y;
        if cx == 0 && cy == 0 {
        } else {
            let v = Vec2i { x: cx as i64, y: cy as i64 };
            assert(1 <= norm_sq(cx, cy)) by (nonlinear_arith)
                requires
                    !(cx == 0 && cy == 0),
            ;
            assert(norm_sq(v.x as int, v.y as int) == norm_sq(cx, cy));
            lemma_normalize_near_unit(v);
            lemma_neg_norm(s.dir_x, s.dir_y);
        }
    }
    assert(spec_paddle(cfg, s) =~= Sim {
        dir_x: spec_paddle(cfg, s).dir_x,
        dir_y: spec_paddle(cfg, s).dir_y,
        ..s
    });
}

/// One brick hit preserves the invariant, never revives a brick, and never
/// lowers the score.
proof fn lemma_brick_hit_wf(cfg: Config, s: Sim, i: int)
    requires
        cfg.wf(),
        sim_wf(cfg, s),
        0 <= i < s.bricks.len(),
    ensures
        sim_wf(cfg, spec_brick_hit(cfg, s, i)),
        spec_brick_hit(cfg, s, i).bricks.len() == s.bricks.len(),
        forall|j: int| 0 <= j < s.bricks.len()
            ==> ((#[trigger] spec_brick_hit(cfg, s, i).bricks[j]).alive ==> s.bricks[j].alive),
        s.score <= spec_brick_hit(cfg, s, i).score,
        spec_brick_hit(cfg, s, i).pos_x == s.pos_x,
        spec_brick_hit(cfg, s, i).pos_y == s.pos_y,
        spec_brick_hit(cfg, s, i).paddle_x == s.paddle_x,
        spec_brick_hit(cfg, s, i).phase == s.phase,
        spec_brick_hit(cfg, s, i).lives == s.lives,
{
    let b = s.bricks[i];
    let hit = spec_collide(
        s.pos_x, s.pos_y, cfg.ball_size as int, cfg.ball_size as int,
        b.x as int, b.y as int, cfg.brick_w as int, cfg.brick_h as int,
    );
    lemma_neg_norm(s.dir_x, s.dir_y);
    if b.alive && hit is Some {
        lemma_alive_count_update(s.bricks, i, Brick { x: b.x, y: b.y, alive: false });
        lemma_alive_count_pos(s.bricks, i);
    }
}

/// The whole brick pass preserves the invariant; the surviving set only
/// shrinks and the score only grows.
proof fn lemma_bricks_from_wf(cfg: Config, s: Sim, i: nat)
    requires
        cfg.wf(),
        sim_wf(cfg, s),
    ensures
        sim_wf(cfg, spec_bricks_from(cfg, s, i)),
        spec_bricks_from(cfg, s, i).bricks.len() == s.bricks.len(),
        forall|j: int| 0 <= j < s.bricks.len()
            ==> ((#[trigger] spec_bricks_from(cfg, s, i).bricks[j]).alive ==> s.bricks[j].alive),
        s.score <= spec_bricks_from(cfg, s, i).score,
        spec_bricks_from(cfg, s, i).pos_x == s.pos_x,
        spec_bricks_from(cfg, s, i).pos_y == s.pos_y,
        spec_bricks_from(cfg, s, i).paddle_x == s.paddle_x,
        spec_bricks_from(cfg, s, i).phase == s.phase,
        spec_bricks_from(cfg, s, i).lives == s.lives,
    decreases s.bricks.len() - i,
{
    if i < s.bricks.len() {
        lemma_brick_hit_wf(cfg, s, i as int);
        lemma_bricks_from_wf(cfg, spec_brick_hit(cfg, s, i as int), i + 1);
    }
}

/// The loss check preserves the invariant.
proof fn lemma_loss_wf(cfg: Config, s: Sim)
    requires
        cfg.wf(),
        sim_wf(cfg, s),
    ensures
        sim_wf(cfg, spec_loss(cfg, s)),
        spec_loss(cfg, s).bricks == s.bricks,
        spec_loss(cfg, s).score == s.score,
{
    crate::state::lemma_initial_dir_wf();
}

/// The win check preserves the invariant.
proof fn lemma_win_wf(cfg: Config, s: Sim)
    requires
        cfg.wf(),
        sim_wf(cfg, s),
    ensures
        sim_wf(cfg, spec_win(s)),
        spec_win(s).bricks == s.bricks,
        spec_win(s).score == s.score,
{
}

/// The resolver preserves the frame invariant; moreover, after any of its
/// bounces the ball's direction is still of (near) unit length, the set of
/// surviving bricks never grows within a frame, and the score rises by
/// exactly one for every brick removed.
pub proof fn lemma_resolve_properties(cfg: Config, s: Sim)
    requires
        cfg.wf(),
        sim_wf(cfg, s),
    ensures
        sim_wf(cfg, spec_resolve(cfg, s)),
        near_unit(spec_resolve(cfg, s).dir_x, spec_resolve(cfg, s).dir_y),
        spec_resolve(cfg, s).bricks.len() == s.bricks.len(),
        forall|j: int| 0 <= j < s.bricks.len()
            ==> ((#[trigger] spec_resolve(cfg, s).bricks[j]).alive ==> s.bricks[j].alive),
        alive_count(spec_resolve(cfg, s).bricks) <= alive_count(s.bricks),
        spec_resolve(cfg, s).score - s.score
            == alive_count(s.bricks) - alive_count(spec_resolve(cfg, s).bricks),
{
    if s.phase == Phase::Playing {
        let s1 = spec_wall(cfg, s);
        let s2 = spec_ceiling(cfg, s1);
        let s3 = spec_paddle(cfg, s2);
        let s4 = spec_bricks_from(cfg, s3, 0);
        let s5 = spec_loss(cfg, s4);
        lemma_wall_wf(cfg, s);
        lemma_ceiling_wf(cfg, s1);
        lemma_paddle_wf(cfg, s2);
        lemma_bricks_from_wf(cfg, s3, 0);
        lemma_loss_wf(cfg, s4);
        lemma_win_wf(cfg, s5);
    }
}

/// Executable form of the steering: `off * DIR_UNIT / pw`, toward zero.
fn english(off: i64, pw: i64) -> (r: i64)
    requires
        0 < pw <= 1_000_000,
        -pw < off < pw,
    ensures
        r as int == spec_english(off as int, pw as int),
        -DIR_UNIT < r < DIR_UNIT,
{
    let mag: u64 = if off < 0 { (-off) as u64 } else { off as u64 };
    proof {
        assert((mag as int) * (DIR_UNIT as int) <= 10_000_000_000) by (nonlinear_arith)
            requires
                0 <= mag as int <= 1_000_000,
                DIR_UNIT == 10_000i64,
        ;
        lemma_english_bound(off as int, pw as int);
    }
    let q: u64 = mag * (DIR_UNIT as u64) / (pw as u64);
    if off < 0 {
        -(q as i64)
    } else {
        q as i64
    }
}

/// Run the collision resolver for one frame: a no-op outside `Playing`;
/// otherwise walls, ceiling, paddle, every brick, then the loss and win
/// checks, exactly as `spec_resolve` composes them.
pub fn resolve(w: &mut World, cfg: &Config)
    requires
        old(w).wf(*cfg),
        cfg.wf(),
    ensures
        final(w).sim() == spec_resolve(*cfg, old(w).sim()),
        final(w).wf(*cfg),
{
    let ghost s0 = w.sim();
    proof {
        lemma_resolve_properties(*cfg, s0);
    }
    if w.phase == Phase::Playing {
        // Side walls.
        let border: i64 = ((cfg.arena_w - cfg.ball_size) as u64 / 2) as i64;
        if w.ball.pos.x < -border || w.ball.pos.x > border {
            w.ball.dir.x = -w.ball.dir.x;
        }
        let ghost s1 = spec_wall(*cfg, s0);
        proof {
            lemma_wall_wf(*cfg, s0);
            assert(w.sim() =~= s1);
        }
        // Ceiling.
        let ceil: i64 = (((cfg.arena_h - cfg.ball_size) as u64 / 2) as i64) - cfg.topbar_h;
        if w.ball.pos.y > ceil {
            w.ball.pos.y = ceil - 1;
            w.ball.dir.y = -w.ball.dir.y;
        }
        let ghost s2 = spec_ceiling(*cfg, s1);
        proof {
            lemma_ceiling_wf(*cfg, s1);
            assert(w.sim() =~= s2);
        }
        // Paddle.
        let hit = collide(
            w.ball.pos.x, w.ball.pos.y, cfg.ball_size, cfg.ball_size,
            w.paddle_x, cfg.paddle_y, cfg.paddle_w, cfg.paddle_h,
        );
        match hit {
            Option::Some(_) => {
                let off: i64 = w.ball.pos.x - w.paddle_x;
                let e: i64 = english(off, cfg.paddle_w);
                let cx: i64 = w.ball.dir.x + e;
                let cy: i64 = -w.ball.dir.y;
                if cx == 0 && cy == 0 {
                } else {
                    proof {
                        assert(1 <= norm_sq(cx as int, cy as int)) by (nonlinear_arith)
                            requires
                                !(cx as int == 0 && cy as int == 0),
                        ;
                    }
                    let nd = normalize(Vec2i { x: cx, y: cy });
                    w.ball.dir = nd;
                }
            },
            Option::None => {},
        }
        let ghost s3 = spec_paddle(*cfg, s2);
        proof {
            lemma_paddle_wf(*cfg, s2);
            assert(w.sim() =~= s3);
        }
        // Bricks.
        let mut k: usize = 0;
        while k < w.bricks.len()
            invariant
                cfg.wf(),
                sim_wf(*cfg, w.sim()),
                k <= w.bricks@.len(),
                w.bricks@.len() == s3.bricks.len(),
                spec_bricks_from(*cfg, s3, 0) == spec_bricks_from(*cfg, w.sim(), k as nat),
            decreases w.bricks@.len() - k,
        {
            let ghost sc = w.sim();
            let b = w.bricks[k];
            proof {
                lemma_brick_pos_bounds(*cfg, k as int);
            }
            if b.alive {
                let hit_b = collide(
                    w.ball.pos.x, w.ball.pos.y, cfg.ball_size, cfg.ball_size,
                    b.x, b.y, cfg.brick_w, cfg.brick_h,
                );
                match hit_b {
                    Option::Some(edge) => {
                        proof {
                            lemma_alive_count_pos(sc.bricks, k as int);
                            lemma_brick_total_bounds(*cfg);
                        }
                        w.bricks[k] = Brick { x: b.x, y: b.y, alive: false };
                        w.score = w.score + 1;
                        match edge {
                            Edge::Left | Edge::Right => {
                                w.ball.dir.x = -w.ball.dir.x;
                            },
                            Edge::Top | Edge::Bottom => {
                                w.ball.dir.y = -w.ball.dir.y;
                            },
                            Edge::Inside => {},
                        }
                    },
                    Option::None => {},
                }
            }
            proof {
                lemma_brick_hit_wf(*cfg, sc, k as int);
                assert(w.sim() =~= spec_brick_hit(*cfg, sc, k as int));
            }
            k = k + 1;
        }
        let ghost s4 = spec_bricks_from(*cfg, s3, 0);
        proof {
            assert(w.sim() =~= s4);
        }
        // Loss check.
        let bottom: i64 = -((cfg.arena_h as u64 / 2) as i64);
        if w.ball.pos.y < bottom {
            if w.lives <= 1 {
                w.phase = Phase::GameOverScreen;
            } else {
                w.phase = Phase::WaitLaunch;
                w.lives = w.lives - 1;
                w.ball.pos.x = 0;
                w.ball.pos.y = 0;
                w.ball.dir = initial_dir();
            }
        }
        let ghost s5 = spec_loss(*cfg, s4);
        proof {
            lemma_loss_wf(*cfg, s4);
            assert(w.sim() =~= s5);
        }
        // Win check.
        proof {
            lemma_brick_total_bounds(*cfg);
        }
        let alive = count_alive(&w.bricks);
        if alive == 0 && w.phase == Phase::Playing {
            w.phase = Phase::WinScreen;
        }
        proof {
            lemma_win_wf(*cfg, s5);
            assert(w.sim() =~= spec_win(s5));
        }
    }
}

} // verus!
