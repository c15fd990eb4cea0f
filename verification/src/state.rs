//! The simulation's data model: configuration constants, the entities
//! (ball, paddle, bricks), the per-round score and lives, and the
//! well-formedness invariant that every frame preserves.

use vstd::prelude::*;
use crate::{COORD_MAX, DIR_UNIT, POS_LIMIT};
use crate::geom::{dir_wf, near_unit, Vec2i};
use crate::phase::Phase;

verus! {

/// The fixed numeric configuration of a game, supplied once at startup.
/// All lengths share one world unit; positions put the origin at the arena
/// center with y growing upward.
#[derive(Clone, Copy, Debug)]
pub struct Config {
    /// Arena width and height.
    pub arena_w: i64,
    pub arena_h: i64,
    /// Height of the HUD bar pinned below the arena's top edge.
    pub topbar_h: i64,
    /// Center of the bottom-left brick of the grid (before the top-bar
    /// offset is applied to y).
    pub brick_begin_x: i64,
    pub brick_begin_y: i64,
    /// Grid extent: `brick_rows * brick_cols` bricks in all.
    pub brick_rows: u32,
    pub brick_cols: u32,
    /// Per-brick size and the spacing between neighbouring bricks.
    pub brick_w: i64,
    pub brick_h: i64,
    pub brick_gap: i64,
    /// Paddle size, its fixed y position, and its speed in units/second.
    pub paddle_w: i64,
    pub paddle_h: i64,
    pub paddle_y: i64,
    pub paddle_speed: i64,
    /// Ball bounding-box side length and speed in units/second.
    pub ball_size: i64,
    pub ball_speed: i64,
    /// Lives a fresh round starts with.
    pub initial_lives: u32,
}

impl Config {
    /// A usable configuration: every dimension positive and bounded, the
    /// grid non-empty and small enough to count, the ball no wider than the
    /// paddle (which keeps the paddle's steering within one unit), and the
    /// paddle no wider than the arena.
    pub open spec fn wf(self) -> bool {
        &&& 0 < self.arena_w <= COORD_MAX
        &&& 0 < self.arena_h <= COORD_MAX
        &&& 0 <= self.topbar_h <= COORD_MAX
        &&& -COORD_MAX <= self.brick_begin_x <= COORD_MAX
        &&& -COORD_MAX <= self.brick_begin_y <= COORD_MAX
        &&& 1 <= self.brick_rows <= 100
        &&& 1 <= self.brick_cols <= 100
        &&& 0 < self.brick_w <= COORD_MAX
        &&& 0 < self.brick_h <= COORD_MAX
        &&& 0 <= self.brick_gap <= COORD_MAX
        &&& 0 < self.paddle_w <= COORD_MAX
        &&& 0 < self.paddle_h <= COORD_MAX
        &&& -COORD_MAX <= self.paddle_y <= COORD_MAX
        &&& 0 <= self.paddle_speed <= COORD_MAX
        &&& 0 < self.ball_size <= self.paddle_w
        &&& 0 < self.ball_speed <= COORD_MAX
        &&& self.paddle_w <= self.arena_w
        &&& self.ball_size <= self.arena_h
        &&& 1 <= self.initial_lives
    }

    /// Total number of bricks in the grid.
    pub open spec fn brick_total(self) -> int {
        self.brick_rows as int * self.brick_cols as int
    }

    /// The paddle center's travel limit: `(arenaWidth - paddleWidth) / 2`.
    pub open spec fn paddle_limit(self) -> int {
        (self.arena_w - self.paddle_w) as int / 2
    }

    /// The side-wall threshold for the ball's center.
    pub open spec fn wall_border(self) -> int {
        (self.arena_w - self.ball_size) as int / 2
    }

    /// The ceiling threshold for the ball's center, below the top bar.
    pub open spec fn ceiling_y(self) -> int {
        (self.arena_h - self.ball_size) as int / 2 - self.topbar_h
    }

    /// The loss threshold: a ball center below this has left the arena.
    pub open spec fn bottom_y(self) -> int {
        -(self.arena_h as int / 2)
    }

    /// Where the ball's center rides while glued to the paddle: just above
    /// the paddle's top edge.
    pub open spec fn ride_y(self) -> int {
        self.paddle_y + (self.paddle_h + self.ball_size) as int / 2 + 1
    }
}

/// One brick of the grid; destruction only clears `alive`, the position
/// stays, so indices are stable for the whole round.
#[derive(Clone, Copy, Debug, PartialEq, Eq, Structural)]
pub struct Brick {
    pub x: i64,
    pub y: i64,
    pub alive: bool,
}

/// The ball: a position and a fixed-point direction of near-unit length.
#[derive(Clone, Copy, Debug, PartialEq, Eq, Structural)]
pub struct Ball {
    pub pos: Vec2i,
    pub dir: Vec2i,
}

/// The input flags one frame consumes: a press edge of the confirm key and
/// the held state of the two paddle keys.
#[derive(Clone, Copy, Debug, PartialEq, Eq, Structural)]
pub struct Input {
    pub confirm: bool,
    pub left: bool,
    pub right: bool,
}

/// The whole mutable simulation: phase, entities, score and lives.
#[derive(Clone, Debug)]
pub struct World {
    pub phase: Phase,
    pub ball: Ball,
    pub paddle_x: i64,
    pub bricks: Vec<Brick>,
    pub score: u32,
    pub lives: u32,
}

/// The mathematical image of a `World`, over unbounded integers and a
/// sequence; the contracts of the per-frame steps are stated as equations
/// between such values.
#[verifier::ext_equal]
pub ghost struct Sim {
    pub phase: Phase,
    pub pos_x: int,
    pub pos_y: int,
    pub dir_x: int,
    pub dir_y: int,
    pub paddle_x: int,
    pub bricks: Seq<Brick>,
    pub score: int,
    pub lives: int,
}

/// The number of surviving bricks in a sequence.
pub open spec fn alive_count(s: Seq<Brick>) -> int
    decreases s.len(),
{
    if s.len() == 0 {
        0
    } else {
        alive_count(s.drop_last()) + if s.last().alive { 1int } else { 0int }
    }
}

/// X coordinate of brick `i` of the grid: the column (which varies fastest)
/// steps by one brick width plus one gap.
pub open spec fn brick_pos_x(cfg: Config, i: int) -> int {
    cfg.brick_begin_x + (i % cfg.brick_cols as int) * (cfg.brick_gap + cfg.brick_w)
}

/// Y coordinate of brick `i` of the grid: the row steps by one brick height
/// plus one gap, and the whole grid is shifted down by the top bar.
pub open spec fn brick_pos_y(cfg: Config, i: int) -> int {
    cfg.brick_begin_y + (i / cfg.brick_cols as int) * (cfg.brick_gap + cfg.brick_h) - cfg.topbar_h
}

/// The freshly generated grid: every brick alive, at its layout position.
pub open spec fn fresh_bricks(cfg: Config) -> Seq<Brick> {
    Seq::new(cfg.brick_total() as nat, |i: int| Brick {
        x: brick_pos_x(cfg, i) as i64,
        y: brick_pos_y(cfg, i) as i64,
        alive: true,
    })
}

impl World {
    /// The mathematical image of this state.
    pub open spec fn sim(self) -> Sim {
        Sim {
            phase: self.phase,
            pos_x: self.ball.pos.x as int,
            pos_y: self.ball.pos.y as int,
            dir_x: self.ball.dir.x as int,
            dir_y: self.ball.dir.y as int,
            paddle_x: self.paddle_x as int,
            bricks: self.bricks@,
            score: self.score as int,
            lives: self.lives as int,
        }
    }

    /// The invariant every frame preserves, stated on the state's
    /// mathematical image.
    pub open spec fn wf(self, cfg: Config) -> bool {
        sim_wf(cfg, self.sim())
    }
}

/// The invariant every frame preserves: the direction is near unit length,
/// positions are saturated into the simulation's range, the paddle is
/// clamped to its limit, the grid has its full shape with every brick at
/// its layout position, and score plus survivors always equals the grid
/// size (each destroyed brick scored exactly once).
pub open spec fn sim_wf(cfg: Config, s: Sim) -> bool {
    &&& near_unit(s.dir_x, s.dir_y)
    &&& -DIR_UNIT - 1 <= s.dir_x <= DIR_UNIT + 1
    &&& -DIR_UNIT - 1 <= s.dir_y <= DIR_UNIT + 1
    &&& -POS_LIMIT <= s.pos_x <= POS_LIMIT
    &&& -POS_LIMIT <= s.pos_y <= POS_LIMIT
    &&& -cfg.paddle_limit() <= s.paddle_x <= cfg.paddle_limit()
    &&& s.bricks.len() == cfg.brick_total()
    &&& forall|i: int| 0 <= i < s.bricks.len() ==> {
        &&& (#[trigger] s.bricks[i]).x == brick_pos_x(cfg, i)
        &&& s.bricks[i].y == brick_pos_y(cfg, i)
    }
    &&& s.score + alive_count(s.bricks) == cfg.brick_total()
    &&& 0 <= s.score
    &&& 0 <= s.lives
}

/// The count of survivors lies between zero and the grid size.
pub proof fn lemma_alive_count_bounds(s: Seq<Brick>)
    ensures
        0 <= alive_count(s) <= s.len(),
    decreases s.len(),
{
    if s.len() > 0 {
        lemma_alive_count_bounds(s.drop_last());
    }
}

/// Destroying the single brick `i` lowers the survivor count by exactly one
/// and leaves every other entry untouched.
pub proof fn lemma_alive_count_update(s: Seq<Brick>, i: int, b: Brick)
    requires
        0 <= i < s.len(),
        s[i].alive,
        !b.alive,
    ensures
        alive_count(s.update(i, b)) == alive_count(s) - 1,
    decreases s.len(),
{
    let t = s.update(i, b);
    if i == s.len() - 1 {
        assert(t.drop_last() =~= s.drop_last());
    } else {
        assert(t.drop_last() =~= s.drop_last().update(i, b));
        lemma_alive_count_update(s.drop_last(), i, b);
        assert(t.last() == s.last());
    }
}

/// Extending a prefix by one element adds that element's contribution.
pub proof fn lemma_alive_count_step(s: Seq<Brick>, k: int)
    requires
        0 <= k < s.len(),
    ensures
        alive_count(s.subrange(0, k + 1))
            == alive_count(s.subrange(0, k)) + if s[k].alive { 1int } else { 0int },
{
    let p = s.subrange(0, k + 1);
    assert(p.drop_last() =~= s.subrange(0, k));
    assert(p.last() == s[k]);
}

/// The full sequence is its own prefix.
pub proof fn lemma_alive_count_full(s: Seq<Brick>)
    ensures
        alive_count(s.subrange(0, s.len() as int)) == alive_count(s),
{
    assert(s.subrange(0, s.len() as int) =~= s);
}

/// Layout positions stay well inside the coordinate range.
pub proof fn lemma_brick_pos_bounds(cfg: Config, i: int)
    requires
        cfg.wf(),
        0 <= i < cfg.brick_total(),
    ensures
        -300_000_000 <= brick_pos_x(cfg, i) <= 300_000_000,
        -300_000_000 <= brick_pos_y(cfg, i) <= 300_000_000,
{
    let c = cfg.brick_cols as int;
    let r = cfg.brick_rows as int;
    vstd::arithmetic::div_mod::lemma_fundamental_div_mod(i, c);
    vstd::arithmetic::div_mod::lemma_mod_bound(i, c);
    assert(0 <= i / c < r) by (nonlinear_arith)
        requires
            i == c * (i / c) + i % c,
            0 <= i % c < c,
            0 <= i < r * c,
            0 < c,
            0 < r,
    ;
    assert(0 <= (i % c) * (cfg.brick_gap + cfg.brick_w) <= 99 * 2_000_000) by (nonlinear_arith)
        requires
            0 <= i % c <= 99,
            0 < cfg.brick_gap + cfg.brick_w <= 2_000_000,
    ;
    assert(0 <= (i / c) * (cfg.brick_gap + cfg.brick_h) <= 99 * 2_000_000) by (nonlinear_arith)
        requires
            0 <= i / c <= 99,
            0 < cfg.brick_gap + cfg.brick_h <= 2_000_000,
    ;
}

/// The ball's direction when a round starts or a life is lost: up and to
/// the right at 45 degrees, at (near) unit length.
pub open spec fn spec_initial_dir() -> Vec2i {
    Vec2i { x: 7071, y: 7071 }
}

/// Executable form of the initial direction.
pub fn initial_dir() -> (r: Vec2i)
    ensures
        r == spec_initial_dir(),
        dir_wf(r),
{
    proof {
        assert(7071 * 7071 + 7071 * 7071 == 99_998_082) by (nonlinear_arith);
    }
    Vec2i { x: 7071, y: 7071 }
}

/// The initial direction is a well-formed direction.
pub proof fn lemma_initial_dir_wf()
    ensures
        dir_wf(spec_initial_dir()),
        near_unit(spec_initial_dir().x as int, spec_initial_dir().y as int),
{
    assert(7071 * 7071 + 7071 * 7071 == 99_998_082) by (nonlinear_arith);
}

/// The grid size stays between one and ten thousand bricks.
pub proof fn lemma_brick_total_bounds(cfg: Config)
    requires
        cfg.wf(),
    ensures
        1 <= cfg.brick_total() <= 10_000,
{
    assert(1 <= cfg.brick_total() <= 10_000) by (nonlinear_arith)
        requires
            1 <= cfg.brick_rows as int <= 100,
            1 <= cfg.brick_cols as int <= 100,
            cfg.brick_total() == cfg.brick_rows as int * cfg.brick_cols as int,
    ;
}

/// A grid of only survivors counts its full length.
pub proof fn lemma_alive_count_all_alive(s: Seq<Brick>)
    requires
        forall|i: int| 0 <= i < s.len() ==> (#[trigger] s[i]).alive,
    ensures
        alive_count(s) == s.len(),
    decreases s.len(),
{
    if s.len() > 0 {
        lemma_alive_count_all_alive(s.drop_last());
    }
}

/// A sequence with one known survivor counts at least one.
pub proof fn lemma_alive_count_pos(s: Seq<Brick>, i: int)
    requires
        0 <= i < s.len(),
        s[i].alive,
    ensures
        alive_count(s) >= 1,
    decreases s.len(),
{
    lemma_alive_count_bounds(s.drop_last());
    if i < s.len() - 1 {
        lemma_alive_count_pos(s.drop_last(), i);
    }
}

/// The state a full round (re)initialization produces: zero score, the
/// configured lives, a fresh grid, the paddle centered, and the ball at the
/// arena center heading up-right.
pub open spec fn spec_round_reset(cfg: Config, ph: Phase) -> Sim {
    Sim {
        phase: ph,
        pos_x: 0,
        pos_y: 0,
        dir_x: spec_initial_dir().x as int,
        dir_y: spec_initial_dir().y as int,
        paddle_x: 0,
        bricks: fresh_bricks(cfg),
        score: 0,
        lives: cfg.initial_lives as int,
    }
}

/// A round reset lands in a well-formed state.
pub proof fn lemma_reset_wf(cfg: Config, ph: Phase)
    requires
        cfg.wf(),
    ensures
        sim_wf(cfg, spec_round_reset(cfg, ph)),
{
    let s = spec_round_reset(cfg, ph);
    assert(7071 * 7071 + 7071 * 7071 == 99_998_082) by (nonlinear_arith);
    assert forall|i: int| 0 <= i < s.bricks.len() implies {
        &&& (#[trigger] s.bricks[i]).x == brick_pos_x(cfg, i)
        &&& s.bricks[i].y == brick_pos_y(cfg, i)
        &&& s.bricks[i].alive
    } by {
        lemma_brick_pos_bounds(cfg, i);
    }
    lemma_alive_count_all_alive(s.bricks);
}

/// Build the fresh brick grid, column varying fastest.
pub fn make_bricks(cfg: &Config) -> (r: Vec<Brick>)
    requires
        cfg.wf(),
    ensures
        r@ == fresh_bricks(*cfg),
{
    proof {
        assert(1 <= cfg.brick_total() <= 10_000) by (nonlinear_arith)
            requires
                1 <= cfg.brick_rows as int <= 100,
                1 <= cfg.brick_cols as int <= 100,
                cfg.brick_total() == cfg.brick_rows as int * cfg.brick_cols as int,
        ;
    }
    let total: u64 = (cfg.brick_rows as u64) * (cfg.brick_cols as u64);
    let mut r: Vec<Brick> = Vec::new();
    let mut i: u64 = 0;
    while i < total
        invariant
            cfg.wf(),
            i <= total,
            total as int == cfg.brick_total(),
            total <= 10_000,
            r@.len() == i as int,
            forall|j: int| 0 <= j < i as int ==> r@[j] == #[trigger] fresh_bricks(*cfg)[j],
        decreases total - i,
    {
        proof {
            lemma_brick_pos_bounds(*cfg, i as int);
            vstd::arithmetic::div_mod::lemma_mod_bound(i as int, cfg.brick_cols as int);
            assert(0 <= (i as int % cfg.brick_cols as int) * (cfg.brick_gap + cfg.brick_w)
                <= 99 * 2_000_000) by (nonlinear_arith)
                requires
                    0 <= i as int % cfg.brick_cols as int <= 99,
                    0 < cfg.brick_gap + cfg.brick_w <= 2_000_000,
            ;
            assert(0 <= (i as int / cfg.brick_cols as int) * (cfg.brick_gap + cfg.brick_h)
                <= 200_000_000_000) by (nonlinear_arith)
                requires
                    0 <= i as int / cfg.brick_cols as int <= 100_000,
                    0 < cfg.brick_gap + cfg.brick_h <= 2_000_000,
            ;
            assert(0 <= i as int / cfg.brick_cols as int <= 100_000) by (nonlinear_arith)
                requires
                    0 <= i as int <= 10_000,
                    1 <= cfg.brick_cols as int,
            ;
        }
        let col: i64 = (i % (cfg.brick_cols as u64)) as i64;
        let row: i64 = (i / (cfg.brick_cols as u64)) as i64;
        let x: i64 = cfg.brick_begin_x + col * (cfg.brick_gap + cfg.brick_w);
        let y: i64 = cfg.brick_begin_y + row * (cfg.brick_gap + cfg.brick_h) - cfg.topbar_h;
        r.push(Brick { x, y, alive: true });
        i = i + 1;
    }
    proof {
        assert(r@ =~= fresh_bricks(*cfg));
    }
    r
}

/// Count the surviving bricks.
pub fn count_alive(bricks: &Vec<Brick>) -> (n: u32)
    requires
        bricks@.len() <= 10_000,
    ensures
        n as int == alive_count(bricks@),
{
    let mut n: u32 = 0;
    let mut k: usize = 0;
    proof {
        assert(bricks@.subrange(0, 0) =~= Seq::<Brick>::empty());
    }
    while k < bricks.len()
        invariant
            k <= bricks@.len() <= 10_000,
            n as int == alive_count(bricks@.subrange(0, k as int)),
            n <= k,
        decreases bricks@.len() - k,
    {
        proof {
            lemma_alive_count_step(bricks@, k as int);
            lemma_alive_count_bounds(bricks@.subrange(0, k as int));
        }
        if bricks[k].alive {
            n = n + 1;
        }
        k = k + 1;
    }
    proof {
        lemma_alive_count_full(bricks@);
    }
    n
}

/// Build the state a round (re)initialization produces, in the given phase.
pub fn reset_round(cfg: &Config, ph: Phase) -> (w: World)
    requires
        cfg.wf(),
    ensures
        w.sim() == spec_round_reset(*cfg, ph),
        w.wf(*cfg),
{
    let bricks = make_bricks(cfg);
    let w = World {
        phase: ph,
        ball: Ball { pos: Vec2i { x: 0, y: 0 }, dir: initial_dir() },
        paddle_x: 0,
        bricks,
        score: 0,
        lives: cfg.initial_lives,
    };
    proof {
        assert(w.sim() =~= spec_round_reset(*cfg, ph));
        lemma_reset_wf(*cfg, ph);
    }
    w
}

/// A fresh game showing the title screen, ready for its first round.
pub fn new_world(cfg: &Config) -> (w: World)
    requires
        cfg.wf(),
    ensures
        w.sim() == spec_round_reset(*cfg, Phase::Welcome),
        w.wf(*cfg),
        w.phase == Phase::Welcome,
{
    reset_round(cfg, Phase::Welcome)
}

} // verus!
