//! The per-frame driver: confirm transition, then motion, then collision
//! resolution, in that order, once per frame.  The host reads input and the
//! elapsed time, hands both in, and renders the resulting state.

use vstd::prelude::*;
use crate::DT_MAX;
use crate::collision::{resolve, spec_resolve};
use crate::motion::{motion, spec_motion};
use crate::phase::{confirm_next, spec_confirm_next, Phase};
use crate::state::{
    brick_pos_x, brick_pos_y, fresh_bricks, lemma_brick_pos_bounds, lemma_reset_wf, reset_round,
    sim_wf, spec_round_reset, Config, Input, Sim, World,
};

verus! {

/// The confirm transition applied to the whole state: from the title
/// screen it performs the full round (re)initialization; from any other
/// phase it changes the phase alone, per the transition table.
pub open spec fn spec_confirm_step(cfg: Config, s: Sim, press: bool) -> Sim {
    if !press {
        s
    } else if s.phase == Phase::Welcome {
        spec_round_reset(cfg, Phase::WaitLaunch)
    } else {
        Sim { phase: spec_confirm_next(s.phase), ..s }
    }
}

/// One whole frame over the mathematical state.
pub open spec fn spec_frame(cfg: Config, s: Sim, inp: Input, dt: int) -> Sim {
    spec_resolve(cfg, spec_motion(cfg, spec_confirm_step(cfg, s, inp.confirm), inp, dt))
}

/// The confirm step preserves the invariant.
pub proof fn lemma_confirm_wf(cfg: Config, s: Sim, press: bool)
    requires
        cfg.wf(),
        sim_wf(cfg, s),
    ensures
        sim_wf(cfg, spec_confirm_step(cfg, s, press)),
{
    if press && s.phase == Phase::Welcome {
        lemma_reset_wf(cfg, Phase::WaitLaunch);
    }
}

/// Entering the serve from the title screen always performs the full round
/// reset: the score returns to zero, the lives to their configured count,
/// and the whole grid is regenerated, every brick alive at its canonical
/// layout position.
pub proof fn lemma_round_reset_on_confirm(cfg: Config, s: Sim)
    requires
        cfg.wf(),
        s.phase == Phase::Welcome,
    ensures
        spec_confirm_step(cfg, s, true).phase == Phase::WaitLaunch,
        spec_confirm_step(cfg, s, true).score == 0,
        spec_confirm_step(cfg, s, true).lives == cfg.initial_lives as int,
        spec_confirm_step(cfg, s, true).bricks == fresh_bricks(cfg),
        spec_confirm_step(cfg, s, true).bricks.len() == cfg.brick_total(),
        forall|i: int| 0 <= i < cfg.brick_total() ==> {
            &&& (#[trigger] spec_confirm_step(cfg, s, true).bricks[i]).x == brick_pos_x(cfg, i)
            &&& spec_confirm_step(cfg, s, true).bricks[i].y == brick_pos_y(cfg, i)
            &&& spec_confirm_step(cfg, s, true).bricks[i].alive
        },
{
    assert forall|i: int| 0 <= i < cfg.brick_total() implies {
        &&& (#[trigger] spec_confirm_step(cfg, s, true).bricks[i]).x == brick_pos_x(cfg, i)
        &&& spec_confirm_step(cfg, s, true).bricks[i].y == brick_pos_y(cfg, i)
        &&& spec_confirm_step(cfg, s, true).bricks[i].alive
    } by {
        lemma_brick_pos_bounds(cfg, i);
    }
}

/// Apply the confirm transition to the world.
pub fn confirm_step(w: &mut World, cfg: &Config, press: bool)
    requires
        old(w).wf(*cfg),
        cfg.wf(),
    ensures
        final(w).sim() == spec_confirm_step(*cfg, old(w).sim(), press),
        final(w).wf(*cfg),
{
    let ghost s0 = w.sim();
    if press {
        if w.phase == Phase::Welcome {
            *w = reset_round(cfg, Phase::WaitLaunch);
        } else {
            w.phase = confirm_next(w.phase);
        }
    }
    proof {
        lemma_confirm_wf(*cfg, s0, press);
        assert(w.sim() =~= spec_confirm_step(*cfg, s0, press));
    }
}

/// Advance the whole game by one frame: the confirm transition first, then
/// motion, then collision resolution, so no component observes a phase
/// newer than its own run.
pub fn frame(w: &mut World, cfg: &Config, inp: Input, dt_ms: u64)
    requires
        old(w).wf(*cfg),
        cfg.wf(),
        dt_ms <= DT_MAX,
    ensures
        final(w).sim() == spec_frame(*cfg, old(w).sim(), inp, dt_ms as int),
        final(w).wf(*cfg),
{
    confirm_step(w, cfg, inp.confirm);
    motion(w, cfg, inp, dt_ms);
    resolve(w, cfg);
}

} // verus!
