//! The motion integrator: advances ball and paddle once per frame,
//! according to the current phase.
//!
//! While waiting to serve (and on the title screen) the ball rides the
//! paddle; while playing it moves along its direction at its configured
//! speed; in every other phase the frame is a no-op for this component.
//! The paddle answers the held keys during `WaitLaunch` and `Playing` and
//! is clamped to its travel limit unconditionally.

use vstd::prelude::*;
use crate::{COORD_MAX, DIR_UNIT, DT_MAX, POS_LIMIT};
use crate::phase::Phase;
use crate::state::{sim_wf, Config, Input, Sim, World};

verus! {

/// Clamp `v` into `[lo, hi]` (callers keep `lo <= hi`).
pub open spec fn spec_clamp(v: int, lo: int, hi: int) -> int {
    if v < lo {
        lo
    } else if v > hi {
        hi
    } else {
        v
    }
}

/// Displacement along one axis in one frame: the fixed-point direction
/// component times the speed (units/second) times the elapsed milliseconds,
/// scaled back by `DIR_UNIT * 1000`, truncated toward zero.
pub open spec fn spec_axis_step(dir_c: int, speed: int, dt: int) -> int {
    if dir_c >= 0 {
        dir_c * speed * dt / (DIR_UNIT as int * 1000)
    } else {
        -(-dir_c * speed * dt / (DIR_UNIT as int * 1000))
    }
}

/// The paddle's new center: shifted by the held keys' velocities (which
/// cancel when both keys are held), then clamped to the travel limit.
pub open spec fn spec_paddle_move(cfg: Config, px: int, inp: Input, dt: int) -> int {
    let v = cfg.paddle_speed * dt / 1000;
    let moved = px + (if inp.right { v } else { 0 }) - (if inp.left { v } else { 0 });
    spec_clamp(moved, -cfg.paddle_limit(), cfg.paddle_limit())
}

/// One whole motion step over the mathematical state.
pub open spec fn spec_motion(cfg: Config, s: Sim, inp: Input, dt: int) -> Sim {
    match s.phase {
        Phase::Welcome => Sim { pos_x: s.paddle_x, pos_y: cfg.ride_y(), ..s },
        Phase::WaitLaunch => {
            let px = spec_paddle_move(cfg, s.paddle_x, inp, dt);
            Sim { paddle_x: px, pos_x: px, pos_y: cfg.ride_y(), ..s }
        },
        Phase::Playing => {
            let px = spec_paddle_move(cfg, s.paddle_x, inp, dt);
            Sim {
                paddle_x: px,
                pos_x: spec_clamp(
                    s.pos_x + spec_axis_step(s.dir_x, cfg.ball_speed as int, dt),
                    -POS_LIMIT as int,
                    POS_LIMIT as int,
                ),
                pos_y: spec_clamp(
                    s.pos_y + spec_axis_step(s.dir_y, cfg.ball_speed as int, dt),
                    -POS_LIMIT as int,
                    POS_LIMIT as int,
                ),
                ..s
            }
        },
        _ => s,
    }
}

/// Motion preserves the frame invariant; in particular the paddle ends
/// every frame inside `[-paddle_limit, paddle_limit]`, whatever the input.
pub proof fn lemma_motion_wf(cfg: Config, s: Sim, inp: Input, dt: int)
    requires
        cfg.wf(),
        sim_wf(cfg, s),
        0 <= dt,
    ensures
        sim_wf(cfg, spec_motion(cfg, s, inp, dt)),
        -cfg.paddle_limit() <= spec_motion(cfg, s, inp, dt).paddle_x <= cfg.paddle_limit(),
{
    assert(0 <= cfg.paddle_limit() <= 500_000);
    assert(-POS_LIMIT <= cfg.ride_y() <= POS_LIMIT);
}

/// Advance ball and paddle for one frame.
pub fn motion(w: &mut World, cfg: &Config, inp: Input, dt_ms: u64)
    requires
        old(w).wf(*cfg),
        cfg.wf(),
        dt_ms <= DT_MAX,
    ensures
        final(w).sim() == spec_motion(*cfg, old(w).sim(), inp, dt_ms as int),
        final(w).wf(*cfg),
        -cfg.paddle_limit() <= final(w).paddle_x <= cfg.paddle_limit(),
{
    let ghost s0 = w.sim();
    match w.phase {
        Phase::Welcome => {
            w.ball.pos.x = w.paddle_x;
            w.ball.pos.y = ride_y(cfg);
        },
        Phase::WaitLaunch => {
            paddle_move(w, cfg, inp, dt_ms);
            w.ball.pos.x = w.paddle_x;
            w.ball.pos.y = ride_y(cfg);
        },
        Phase::Playing => {
            paddle_move(w, cfg, inp, dt_ms);
            let sx: i64 = axis_step(w.ball.dir.x, cfg.ball_speed, dt_ms);
            let sy: i64 = axis_step(w.ball.dir.y, cfg.ball_speed, dt_ms);
            w.ball.pos.x = clamp_pos(w.ball.pos.x + sx);
            w.ball.pos.y = clamp_pos(w.ball.pos.y + sy);
        },
        Phase::Pause => {},
        Phase::GameOverScreen => {},
        Phase::WinScreen => {},
    }
    proof {
        lemma_motion_wf(*cfg, s0, inp, dt_ms as int);
        assert(w.sim() =~= spec_motion(*cfg, s0, inp, dt_ms as int));
    }
}

/// Where the glued ball's center rides: just above the paddle's top edge.
fn ride_y(cfg: &Config) -> (r: i64)
    requires
        cfg.wf(),
    ensures
        r as int == cfg.ride_y(),
{
    cfg.paddle_y + (((cfg.paddle_h + cfg.ball_size) as u64 / 2) as i64) + 1
}

/// Saturate a coordinate into the simulation's range.
fn clamp_pos(v: i64) -> (r: i64)
    ensures
        r as int == spec_clamp(v as int, -POS_LIMIT as int, POS_LIMIT as int),
{
    if v < -POS_LIMIT {
        -POS_LIMIT
    } else if v > POS_LIMIT {
        POS_LIMIT
    } else {
        v
    }
}

/// Displacement along one axis for one frame of free ball motion.
fn axis_step(dir_c: i64, speed: i64, dt: u64) -> (r: i64)
    requires
        -DIR_UNIT - 1 <= dir_c <= DIR_UNIT + 1,
        0 < speed <= COORD_MAX,
        dt <= DT_MAX,
    ensures
        r as int == spec_axis_step(dir_c as int, speed as int, dt as int),
        -1_100_000_000 <= r <= 1_100_000_000,
{
    let mag: u64 = if dir_c < 0 { (-dir_c) as u64 } else { dir_c as u64 };
    proof {
        assert((mag as int) * (speed as int) <= 10_001_000_000) by (nonlinear_arith)
            requires
                0 <= mag as int <= 10_001,
                0 <= speed as int <= 1_000_000,
        ;
        assert((mag as int) * (speed as int) * (dt as int) <= 10_001_000_000_000_000)
            by (nonlinear_arith)
            requires
                0 <= (mag as int) * (speed as int) <= 10_001_000_000,
                0 <= dt as int <= 1_000_000,
        ;
    }
    let prod: u64 = mag * (speed as u64) * dt;
    let step: u64 = prod / ((DIR_UNIT as u64) * 1000);
    proof {
        assert(step as int <= 1_100_000_000) by (nonlinear_arith)
            requires
                0 <= prod as int <= 10_001_000_000_000_000,
                step as int == prod as int / 10_000_000,
        ;
    }
    let r: i64 = if dir_c < 0 { -(step as i64) } else { step as i64 };
    r
}

/// Move the paddle by the held keys and clamp it to its travel limit.
fn paddle_move(w: &mut World, cfg: &Config, inp: Input, dt_ms: u64)
    requires
        old(w).wf(*cfg),
        cfg.wf(),
        dt_ms <= DT_MAX,
    ensures
        final(w).paddle_x as int == spec_paddle_move(*cfg, old(w).paddle_x as int, inp, dt_ms as int),
        final(w).ball == old(w).ball,
        final(w).phase == old(w).phase,
        final(w).bricks == old(w).bricks,
        final(w).score == old(w).score,
        final(w).lives == old(w).lives,
{
    proof {
        assert((cfg.paddle_speed as int) * (dt_ms as int) <= 1_000_000_000_000)
            by (nonlinear_arith)
            requires
                0 <= cfg.paddle_speed as int <= 1_000_000,
                0 <= dt_ms as int <= 1_000_000,
        ;
    }
    let v: i64 = (((cfg.paddle_speed as u64) * dt_ms) / 1000) as i64;
    let moved: i64 = w.paddle_x + (if inp.right { v } else { 0 }) - (if inp.left { v } else { 0 });
    let limit: i64 = ((cfg.arena_w - cfg.paddle_w) as u64 / 2) as i64;
    w.paddle_x = if moved < -limit {
        -limit
    } else if moved > limit {
        limit
    } else {
        moved
    };
}

} // verus!
