//! The mobile agent: pose, kinematics, noise and pose correction.
//!
//! Two agents of this one type run per session: a ground-truth agent
//! driven by input, and a belief agent corrected by localization.  Poses
//! are fixed-point: coordinates in world subunits, headings in angle
//! units within `(-ANGLE_HALF, ANGLE_HALF]`.
use vstd::prelude::*;
use crate::geom::ANGLE_FULL;
use crate::geom::ANGLE_HALF;
use crate::geom::ANGLE_QUARTER;
use crate::geom::TRIG_ONE;
use crate::geom::angular_distance;
use crate::geom::clamp_i64;
use crate::geom::clamped;
use crate::geom::cos_fixed;
use crate::geom::cos_units;
use crate::geom::div_trunc;
use crate::geom::div_trunc_i64;
use crate::geom::shortest_angle_delta;
use crate::geom::sin_fixed;
use crate::geom::sin_units;
use crate::geom::spec_angular_distance;
use crate::geom::spec_shortest_delta;
use crate::geom::wrap_angle;
use crate::geom::wrap_signed;
use crate::geom::wrapped360;
use crate::geom::wrapped_signed;
use crate::grid::Grid;
use crate::grid::Tile;
use crate::occupancy::SCell;
use crate::occupancy::SlamMap;
use crate::raycast::ray_cos;
use crate::raycast::ray_dir;
use crate::raycast::sample_coord;
use crate::raycast::sample_point;
use crate::raycast::samples_per_ray;
use crate::raycast::ray_sin;
use crate::raycast::tile_index;
use crate::raycast::tile_of;
use crate::geom::div_nn;
use crate::SimConfig;
use crate::POS_LIMIT;
use crate::RANGE_LIMIT;
use crate::WORLD_UNIT;

verus! {

/// A mobile agent: a continuous pose and its fixed sensor parameters.
#[derive(Clone, Copy, PartialEq, Eq, Structural, Debug)]
pub struct Agent {
    pub x: i64,
    pub y: i64,
    pub theta: i64,
    pub fov_angle: i64,
    pub fov_range: i64,
}

impl Agent {
    /// Well-formedness: the pose and sensor parameters lie within the
    /// bounds the fixed-point arithmetic relies on.
    pub open spec fn wf(self) -> bool {
        &&& -POS_LIMIT <= self.x <= POS_LIMIT
        &&& -POS_LIMIT <= self.y <= POS_LIMIT
        &&& -ANGLE_HALF < self.theta <= ANGLE_HALF
        &&& 0 <= self.fov_angle <= ANGLE_FULL
        &&& 0 <= self.fov_range <= RANGE_LIMIT
    }

    /// An agent at the origin looking along the positive x axis, with a
    /// quarter-turn field of view reaching four cells of the standard
    /// configuration.
    pub fn new() -> (r: Agent)
        ensures
            r.x == 0 && r.y == 0 && r.theta == 0,
            r.fov_angle == ANGLE_QUARTER,
            r.fov_range == 3000,
            r.wf(),
    {
        Agent { x: 0, y: 0, theta: 0, fov_angle: ANGLE_QUARTER, fov_range: 3000 }
    }

    /// Copies the full pose, heading included, from another agent.
    pub fn copy_pos(&mut self, other: &Agent)
        ensures
            final(self).x == other.x,
            final(self).y == other.y,
            final(self).theta == other.theta,
            final(self).fov_angle == old(self).fov_angle,
            final(self).fov_range == old(self).fov_range,
    {
        self.x = other.x;
        self.y = other.y;
        self.theta = other.theta;
    }

    /// Copies only the heading from another agent.
    pub fn copy_theta(&mut self, other: &Agent)
        ensures
            final(self).theta == other.theta,
            final(self).x == old(self).x,
            final(self).y == old(self).y,
            final(self).fov_angle == old(self).fov_angle,
            final(self).fov_range == old(self).fov_range,
    {
        self.theta = other.theta;
    }

    /// Shifts the position by an injected jitter draw, one value per axis.
    /// The draws come from whatever noise source the session runs with.
    pub fn add_noise(&mut self, noise_x: i64, noise_y: i64)
        requires
            -1_000_000 <= noise_x <= 1_000_000,
            -1_000_000 <= noise_y <= 1_000_000,
            -POS_LIMIT <= old(self).x + noise_x <= POS_LIMIT,
            -POS_LIMIT <= old(self).y + noise_y <= POS_LIMIT,
        ensures
            final(self).x == old(self).x + noise_x,
            final(self).y == old(self).y + noise_y,
            final(self).theta == old(self).theta,
            final(self).fov_angle == old(self).fov_angle,
            final(self).fov_range == old(self).fov_range,
    {
        self.x = self.x + noise_x;
        self.y = self.y + noise_y;
    }

    /// Places the agent just inside the first generated room, facing
    /// along the positive x axis; on a grid without rooms it falls back
    /// to the origin pose.
    pub fn spawn(&mut self, grid: &Grid, cfg: &SimConfig)
        requires
            grid.wf(),
            cfg.wf(),
            grid.cell_size <= 40_000,
            grid.rooms@.len() > 0 ==> grid.rooms@[0].x + grid.rooms@[0].width <= 4000
                && grid.rooms@[0].y + grid.rooms@[0].height <= 4000,
        ensures
            grid.rooms@.len() == 0 ==> final(self).x == 0 && final(self).y == 0,
            grid.rooms@.len() > 0 ==> final(self).x == grid.rooms@[0].x * grid.cell_size
                + grid.rooms@[0].width * WORLD_UNIT + cfg.radius,
            grid.rooms@.len() > 0 ==> final(self).y == grid.rooms@[0].y * grid.cell_size
                + grid.rooms@[0].height * WORLD_UNIT + cfg.radius,
            final(self).theta == 0,
            final(self).fov_angle == old(self).fov_angle,
            final(self).fov_range == old(self).fov_range,
            old(self).wf() ==> final(self).wf(),
    {
        if grid.rooms.len() == 0 {
            self.x = 0;
            self.y = 0;
            self.theta = 0;
            return ;
        }
        let room = &grid.rooms[0];
        proof {
            assert(0 <= (room.x as int) * (grid.cell_size as int) <= 160_000_000)
                by (nonlinear_arith)
                requires
                    0 <= room.x <= 4000,
                    0 <= grid.cell_size <= 40_000,
            ;
            assert(0 <= (room.y as int) * (grid.cell_size as int) <= 160_000_000)
                by (nonlinear_arith)
                requires
                    0 <= room.y <= 4000,
                    0 <= grid.cell_size <= 40_000,
            ;
        }
        let x = room.x as i64 * grid.cell_size + room.width as i64 * WORLD_UNIT + cfg.radius;
        let y = room.y as i64 * grid.cell_size + room.height as i64 * WORLD_UNIT + cfg.radius;
        self.x = x;
        self.y = y;
        self.theta = 0;
    }
}


/// The score of one observed pair, in tenths of a point: a matched
/// obstacle earns 30, matched open space 10, an unexplored belief costs
/// 2, and any mismatch costs 20.
pub open spec fn pair_score(observed: Tile, slam: SCell) -> int {
    if observed == Tile::Wall && slam == SCell::Occupied {
        30
    } else if observed == Tile::Floor && slam == SCell::Free {
        10
    } else if slam == SCell::Unknown {
        -2
    } else {
        -20
    }
}

/// The score contribution of one ray from step `j` on.  A pair whose
/// truth or belief tile is out of bounds is skipped; an Occupied belief
/// tile ends the ray after scoring.
pub open spec fn ray_score(
    g: Grid,
    cells: Seq<Seq<SCell>>,
    ax: int,
    ay: int,
    bx: int,
    by: int,
    c: int,
    s: int,
    j: int,
    max_j: int,
    bw: int,
    bh: int,
) -> int
    decreases max_j - j,
{
    if j >= max_j {
        0
    } else {
        let rest = ray_score(g, cells, ax, ay, bx, by, c, s, j + 1, max_j, bw, bh);
        let twx = sample_coord(ax, g.cell_size as int, c, j);
        let twy = sample_coord(ay, g.cell_size as int, s, j);
        let bwx = sample_coord(bx, g.cell_size as int, c, j);
        let bwy = sample_coord(by, g.cell_size as int, s, j);
        let tt_x = tile_of(twx, g.cell_size as int, g.width as int);
        let tt_y = tile_of(twy, g.cell_size as int, g.height as int);
        let bt_x = tile_of(bwx, g.cell_size as int, bw);
        let bt_y = tile_of(bwy, g.cell_size as int, bh);
        if tt_x is Some && tt_y is Some && bt_x is Some && bt_y is Some {
            let observed = g.tile_at(tt_x.unwrap(), tt_y.unwrap());
            let slam = cells[bt_y.unwrap()][bt_x.unwrap()];
            if slam == SCell::Occupied {
                pair_score(observed, slam)
            } else {
                pair_score(observed, slam) + rest
            }
        } else {
            rest
        }
    }
}

/// The score of the first `n` rays of a sweep.
pub open spec fn score_upto(
    g: Grid,
    cells: Seq<Seq<SCell>>,
    ax: int,
    ay: int,
    bx: int,
    by: int,
    theta: int,
    fov: int,
    num_rays: int,
    max_j: int,
    bw: int,
    bh: int,
    n: int,
) -> int
    decreases n,
{
    if n <= 0 {
        0
    } else {
        score_upto(g, cells, ax, ay, bx, by, theta, fov, num_rays, max_j, bw, bh, n - 1)
            + ray_score(
            g,
            cells,
            ax,
            ay,
            bx,
            by,
            ray_cos(theta, fov, num_rays, n - 1),
            ray_sin(theta, fov, num_rays, n - 1),
            0,
            max_j,
            bw,
            bh,
        )
    }
}

/// The agreement score of a candidate pose pair against the belief map
/// and the true terrain, over the full sweep.
pub open spec fn spec_score(
    truth: Agent,
    belief: Agent,
    sm: SlamMap,
    g: Grid,
    cfg: SimConfig,
) -> int {
    score_upto(
        g,
        sm.view_cells(),
        truth.x as int,
        truth.y as int,
        belief.x as int,
        belief.y as int,
        truth.theta as int,
        truth.fov_angle as int,
        cfg.num_rays as int,
        samples_per_ray(truth.fov_range as int, g.cell_size as int),
        sm.width as int,
        sm.height as int,
        cfg.num_rays as int,
    )
}

/// One ray scores at most 30 points per remaining step, in magnitude.
proof fn lemma_ray_score_bound(
    g: Grid,
    cells: Seq<Seq<SCell>>,
    ax: int,
    ay: int,
    bx: int,
    by: int,
    c: int,
    s: int,
    j: int,
    max_j: int,
    bw: int,
    bh: int,
)
    requires
        0 <= j <= max_j,
    ensures
        -30 * (max_j - j) <= ray_score(g, cells, ax, ay, bx, by, c, s, j, max_j, bw, bh) <= 30 * (
        max_j - j),
    decreases max_j - j,
{
    if j < max_j {
        lemma_ray_score_bound(g, cells, ax, ay, bx, by, c, s, j + 1, max_j, bw, bh);
    }
}

/// A sweep of `n` rays scores at most `30 n max_j` points, in magnitude.
proof fn lemma_score_upto_bound(
    g: Grid,
    cells: Seq<Seq<SCell>>,
    ax: int,
    ay: int,
    bx: int,
    by: int,
    theta: int,
    fov: int,
    num_rays: int,
    max_j: int,
    bw: int,
    bh: int,
    n: int,
)
    requires
        n >= 0,
        max_j >= 0,
    ensures
        -30 * n * max_j <= score_upto(
            g,
            cells,
            ax,
            ay,
            bx,
            by,
            theta,
            fov,
            num_rays,
            max_j,
            bw,
            bh,
            n,
        ) <= 30 * n * max_j,
    decreases n,
{
    if n > 0 {
        lemma_score_upto_bound(g, cells, ax, ay, bx, by, theta, fov, num_rays, max_j, bw, bh, n - 1);
        lemma_ray_score_bound(
            g,
            cells,
            ax,
            ay,
            bx,
            by,
            ray_cos(theta, fov, num_rays, n - 1),
            ray_sin(theta, fov, num_rays, n - 1),
            0,
            max_j,
            bw,
            bh,
        );
        assert(30 * (n - 1) * max_j + 30 * max_j == 30 * n * max_j) by (nonlinear_arith);
        assert(-30 * (n - 1) * max_j - 30 * max_j == -30 * n * max_j) by (nonlinear_arith);
    } else {
        assert(30 * n * max_j == 0) by (nonlinear_arith)
            requires
                n == 0,
        ;
    }
}

/// Scores how well `slam_agent`'s pose explains the belief map given the
/// ground-truth `agent`\'s pose and terrain: the summed pair scores of
/// every sample of the sweep, with rays cut short at Occupied beliefs.
pub fn score_pose_against_map(
    agent: &Agent,
    slam_agent: &Agent,
    slam_map: &SlamMap,
    map: &Grid,
    cfg: &SimConfig,
) -> (r: i64)
    requires
        agent.wf(),
        slam_agent.wf(),
        slam_map.wf(),
        map.wf(),
        cfg.wf(),
    ensures
        r == spec_score(*agent, *slam_agent, *slam_map, *map, *cfg),
{
    let max_j: i64 = div_nn(agent.fov_range, map.cell_size) + 1;
    let ghost gmax = samples_per_ray(agent.fov_range as int, map.cell_size as int);
    let ghost cells = slam_map.view_cells();
    let ghost bw = slam_map.width as int;
    let ghost bh = slam_map.height as int;
    let mut score: i64 = 0;
    let mut i: usize = 0;
    proof {
        vstd::arithmetic::mul::lemma_mul_basics(gmax);
        assert(-30 * (0int) * gmax == 0 && 30 * (0int) * gmax == 0) by (nonlinear_arith);
    }
    while i < cfg.num_rays
        invariant
            agent.wf(),
            slam_agent.wf(),
            slam_map.wf(),
            map.wf(),
            cfg.wf(),
            i <= cfg.num_rays,
            1 <= max_j <= 100_000_001,
            max_j == gmax,
            gmax == agent.fov_range as int / map.cell_size as int + 1,
            cells == slam_map.view_cells(),
            bw == slam_map.width as int,
            bh == slam_map.height as int,
            score == score_upto(
                *map,
                cells,
                agent.x as int,
                agent.y as int,
                slam_agent.x as int,
                slam_agent.y as int,
                agent.theta as int,
                agent.fov_angle as int,
                cfg.num_rays as int,
                gmax,
                bw,
                bh,
                i as int,
            ),
            -30 * (i as int) * gmax <= score <= 30 * (i as int) * gmax,
        decreases cfg.num_rays - i,
    {
        let (c, s) = ray_dir(agent.theta, agent.fov_angle, cfg.num_rays, i);
        let ghost pre_score = score as int;
        proof {
            assert(30 * (i as int) * gmax <= 3_100_000_000_000_000) by (nonlinear_arith)
                requires
                    0 <= i <= 100_000,
                    0 <= gmax <= 100_000_001,
            ;
            assert(-30 * (i as int) * gmax >= -3_100_000_000_000_000) by (nonlinear_arith)
                requires
                    0 <= i <= 100_000,
                    0 <= gmax <= 100_000_001,
            ;
        }
        let mut j: i64 = 0;
        while j < max_j
            invariant_except_break
                agent.wf(),
                slam_agent.wf(),
                slam_map.wf(),
                map.wf(),
                0 <= j <= max_j,
                1 <= max_j <= 100_000_001,
                max_j == agent.fov_range as int / map.cell_size as int + 1,
                -TRIG_ONE <= c <= TRIG_ONE,
                -TRIG_ONE <= s <= TRIG_ONE,
                cells == slam_map.view_cells(),
                bw == slam_map.width as int,
                bh == slam_map.height as int,
                -4_000_000_000_000_000 <= pre_score <= 4_000_000_000_000_000,
                score == pre_score + ray_score(
                    *map,
                    cells,
                    agent.x as int,
                    agent.y as int,
                    slam_agent.x as int,
                    slam_agent.y as int,
                    c as int,
                    s as int,
                    0,
                    max_j as int,
                    bw,
                    bh,
                ) - ray_score(
                    *map,
                    cells,
                    agent.x as int,
                    agent.y as int,
                    slam_agent.x as int,
                    slam_agent.y as int,
                    c as int,
                    s as int,
                    j as int,
                    max_j as int,
                    bw,
                    bh,
                ),
            ensures
                score == pre_score + ray_score(
                    *map,
                    cells,
                    agent.x as int,
                    agent.y as int,
                    slam_agent.x as int,
                    slam_agent.y as int,
                    c as int,
                    s as int,
                    0,
                    max_j as int,
                    bw,
                    bh,
                ),
            decreases max_j - j,
        {
            proof {
                vstd::arithmetic::div_mod::lemma_fundamental_div_mod(
                    agent.fov_range as int,
                    map.cell_size as int,
                );
                assert((j as int) * (map.cell_size as int) <= (agent.fov_range as int
                    / map.cell_size as int) * (map.cell_size as int)) by (nonlinear_arith)
                    requires
                        0 <= j <= agent.fov_range as int / map.cell_size as int,
                        0 < map.cell_size,
                ;
                lemma_ray_score_bound(
                    *map,
                    cells,
                    agent.x as int,
                    agent.y as int,
                    slam_agent.x as int,
                    slam_agent.y as int,
                    c as int,
                    s as int,
                    0,
                    max_j as int,
                    bw,
                    bh,
                );
                lemma_ray_score_bound(
                    *map,
                    cells,
                    agent.x as int,
                    agent.y as int,
                    slam_agent.x as int,
                    slam_agent.y as int,
                    c as int,
                    s as int,
                    j as int,
                    max_j as int,
                    bw,
                    bh,
                );
            }
            let twx = sample_point(agent.x, map.cell_size, c, j);
            let twy = sample_point(agent.y, map.cell_size, s, j);
            let bwx = sample_point(slam_agent.x, map.cell_size, c, j);
            let bwy = sample_point(slam_agent.y, map.cell_size, s, j);
            let ott_x = tile_index(twx, map.cell_size, map.width);
            let ott_y = tile_index(twy, map.cell_size, map.height);
            let obt_x = tile_index(bwx, map.cell_size, slam_map.width);
            let obt_y = tile_index(bwy, map.cell_size, slam_map.height);
            if ott_x.is_some() && ott_y.is_some() && obt_x.is_some() && obt_y.is_some() {
                let observed = map.tiles[ott_y.unwrap()][ott_x.unwrap()];
                let slam = slam_map.cells[obt_y.unwrap()][obt_x.unwrap()];
                let points: i64 = if observed == Tile::Wall && slam == SCell::Occupied {
                    30
                } else if observed == Tile::Floor && slam == SCell::Free {
                    10
                } else if slam == SCell::Unknown {
                    -2
                } else {
                    -20
                };
                score = score + points;
                if slam == SCell::Occupied {
                    break ;
                }
            }
            j += 1;
        }
        proof {
            lemma_ray_score_bound(
                *map,
                cells,
                agent.x as int,
                agent.y as int,
                slam_agent.x as int,
                slam_agent.y as int,
                c as int,
                s as int,
                0,
                gmax,
                bw,
                bh,
            );
            lemma_score_upto_bound(
                *map,
                cells,
                agent.x as int,
                agent.y as int,
                slam_agent.x as int,
                slam_agent.y as int,
                agent.theta as int,
                agent.fov_angle as int,
                cfg.num_rays as int,
                gmax,
                bw,
                bh,
                i + 1,
            );
            assert(-30 * (i as int) * gmax - 30 * gmax <= -30 * ((i + 1) as int) * gmax)
                by (nonlinear_arith);
            assert(30 * (i as int) * gmax + 30 * gmax >= 30 * ((i + 1) as int) * gmax)
                by (nonlinear_arith);
        }
        i += 1;
    }
    score
}


/// The sweep score with the belief pose moved to `(bx, by)`.
pub open spec fn score_at(truth: Agent, sm: SlamMap, g: Grid, cfg: SimConfig, bx: int, by: int) -> int {
    score_upto(
        g,
        sm.view_cells(),
        truth.x as int,
        truth.y as int,
        bx,
        by,
        truth.theta as int,
        truth.fov_angle as int,
        cfg.num_rays as int,
        samples_per_ray(truth.fov_range as int, g.cell_size as int),
        sm.width as int,
        sm.height as int,
        cfg.num_rays as int,
    )
}

/// Any sweep score is bounded by 30 points per sample of the sweep.
proof fn lemma_score_numeric_bound(
    truth: Agent,
    sm: SlamMap,
    g: Grid,
    cfg: SimConfig,
    bx: int,
    by: int,
)
    requires
        truth.wf(),
        g.wf(),
        cfg.wf(),
    ensures
        -3_100_000_000_000_000 <= score_at(truth, sm, g, cfg, bx, by) <= 3_100_000_000_000_000,
{
    let gmax = samples_per_ray(truth.fov_range as int, g.cell_size as int);
    vstd::arithmetic::div_mod::lemma_div_pos_is_pos(truth.fov_range as int, g.cell_size as int);
    vstd::arithmetic::div_mod::lemma_div_is_ordered_by_denominator(
        truth.fov_range as int,
        1,
        g.cell_size as int,
    );
    vstd::arithmetic::div_mod::lemma_div_basics(truth.fov_range as int);
    lemma_score_upto_bound(
        g,
        sm.view_cells(),
        truth.x as int,
        truth.y as int,
        bx,
        by,
        truth.theta as int,
        truth.fov_angle as int,
        cfg.num_rays as int,
        gmax,
        sm.width as int,
        sm.height as int,
        cfg.num_rays as int,
    );
    assert(30 * (cfg.num_rays as int) * gmax <= 3_100_000_000_000_000) by (nonlinear_arith)
        requires
            0 <= cfg.num_rays <= 100_000,
            0 <= gmax <= 100_000_001,
    ;
    assert(-30 * (cfg.num_rays as int) * gmax >= -3_100_000_000_000_000) by (nonlinear_arith)
        requires
            0 <= cfg.num_rays <= 100_000,
            0 <= gmax <= 100_000_001,
    ;
}

/// Candidate `k` of the 21-by-21 search window around `(x0, y0)`:
/// offsets `-10` to `10` per axis, `loc_step` subunits apart.
pub open spec fn cand_pose(x0: int, y0: int, step: int, k: int) -> (int, int) {
    (x0 + (k / 21 - 10) * step, y0 + (k % 21 - 10) * step)
}

/// The winning score and pose after weighing candidates `k` to `440`
/// against the standing best `(bs, bp)`: a candidate is adopted only when
/// it beats the standing best by more than the margin.
pub open spec fn best_from(
    truth: Agent,
    sm: SlamMap,
    g: Grid,
    cfg: SimConfig,
    x0: int,
    y0: int,
    k: int,
    bs: int,
    bp: (int, int),
) -> (int, (int, int))
    decreases 441 - k,
{
    if k < 0 || k >= 441 {
        (bs, bp)
    } else {
        let p = cand_pose(x0, y0, cfg.loc_step as int, k);
        let sc = score_at(truth, sm, g, cfg, p.0, p.1);
        if sc > bs + cfg.loc_margin {
            best_from(truth, sm, g, cfg, x0, y0, k + 1, sc, p)
        } else {
            best_from(truth, sm, g, cfg, x0, y0, k + 1, bs, bp)
        }
    }
}

/// The corrected position after one localization pass: the exponential
/// blend `(4 pose + best)/5` of the current pose with the winning
/// candidate, each axis rounded toward zero.
pub open spec fn spec_localized(
    truth: Agent,
    belief: Agent,
    sm: SlamMap,
    g: Grid,
    cfg: SimConfig,
) -> (int, int) {
    let s0 = score_at(truth, sm, g, cfg, belief.x as int, belief.y as int);
    let r = best_from(
        truth,
        sm,
        g,
        cfg,
        belief.x as int,
        belief.y as int,
        0,
        s0,
        (belief.x as int, belief.y as int),
    );
    (div_trunc(4 * belief.x + r.1.0, 5), div_trunc(4 * belief.y + r.1.1, 5))
}

impl Agent {
    /// Corrects this belief agent\'s position against the belief map and
    /// the true terrain: scores the current pose, weighs a 21-by-21 window
    /// of candidate offsets around it with a hysteresis margin, and blends
    /// a fifth of the way toward the winner.  The heading is never
    /// touched.
    pub fn localize(&mut self, other: &Agent, slam_map: &SlamMap, map: &Grid, cfg: &SimConfig)
        requires
            old(self).wf(),
            other.wf(),
            slam_map.wf(),
            map.wf(),
            cfg.wf(),
            -190_000_000 <= old(self).x <= 190_000_000,
            -190_000_000 <= old(self).y <= 190_000_000,
        ensures
            final(self).theta == old(self).theta,
            final(self).fov_angle == old(self).fov_angle,
            final(self).fov_range == old(self).fov_range,
            final(self).x == spec_localized(*other, *old(self), *slam_map, *map, *cfg).0,
            final(self).y == spec_localized(*other, *old(self), *slam_map, *map, *cfg).1,
            final(self).wf(),
    {
        let s0 = score_pose_against_map(other, self, slam_map, map, cfg);
        proof {
            lemma_score_numeric_bound(
                *other,
                *slam_map,
                *map,
                *cfg,
                self.x as int,
                self.y as int,
            );
        }
        let mut best_score: i64 = s0;
        let mut best_x: i64 = self.x;
        let mut best_y: i64 = self.y;
        let ghost x0 = self.x as int;
        let ghost y0 = self.y as int;
        let mut k: usize = 0;
        while k < 441
            invariant
                *self == *old(self),
                self.wf(),
                other.wf(),
                slam_map.wf(),
                map.wf(),
                cfg.wf(),
                -190_000_000 <= self.x <= 190_000_000,
                -190_000_000 <= self.y <= 190_000_000,
                x0 == self.x as int,
                y0 == self.y as int,
                k <= 441,
                -3_100_000_000_000_000 <= best_score <= 3_100_000_000_000_000,
                -200_000_000 <= best_x <= 200_000_000,
                -200_000_000 <= best_y <= 200_000_000,
                s0 == score_at(*other, *slam_map, *map, *cfg, x0, y0),
                best_from(
                    *other,
                    *slam_map,
                    *map,
                    *cfg,
                    x0,
                    y0,
                    k as int,
                    best_score as int,
                    (best_x as int, best_y as int),
                ) == best_from(
                    *other,
                    *slam_map,
                    *map,
                    *cfg,
                    x0,
                    y0,
                    0,
                    s0 as int,
                    (x0, y0),
                ),
            decreases 441 - k,
        {
            let dx = (k / 21) as i64 - 10;
            let dy = (k % 21) as i64 - 10;
            proof {
                assert(-10_000_000 <= dx * cfg.loc_step <= 10_000_000) by (nonlinear_arith)
                    requires
                        -10 <= dx <= 10,
                        1 <= cfg.loc_step <= 1_000_000,
                ;
                assert(-10_000_000 <= dy * cfg.loc_step <= 10_000_000) by (nonlinear_arith)
                    requires
                        -10 <= dy <= 10,
                        1 <= cfg.loc_step <= 1_000_000,
                ;
            }
            let try_x = self.x + dx * cfg.loc_step;
            let try_y = self.y + dy * cfg.loc_step;
            let cand = Agent {
                x: try_x,
                y: try_y,
                theta: self.theta,
                fov_angle: self.fov_angle,
                fov_range: self.fov_range,
            };
            let sc = score_pose_against_map(other, &cand, slam_map, map, cfg);
            proof {
                lemma_score_numeric_bound(
                    *other,
                    *slam_map,
                    *map,
                    *cfg,
                    try_x as int,
                    try_y as int,
                );
                assert(cand_pose(x0, y0, cfg.loc_step as int, k as int) == (
                    try_x as int,
                    try_y as int,
                ));
                assert(sc == score_at(*other, *slam_map, *map, *cfg, try_x as int, try_y as int));
            }
            if sc > best_score + cfg.loc_margin {
                best_score = sc;
                best_x = try_x;
                best_y = try_y;
            }
            k += 1;
        }
        let bx = 4 * self.x + best_x;
        let by = 4 * self.y + best_y;
        self.x = div_trunc_i64(bx, 5);
        self.y = div_trunc_i64(by, 5);
        proof {
            assert(-192_000_001 <= div_trunc(bx as int, 5) <= 192_000_001);
            assert(-192_000_001 <= div_trunc(by as int, 5) <= 192_000_001);
        }
    }
}


/// The heading after applying the turn inputs: left then right, each by
/// one turn-speed step, each wrapped back into `(-ANGLE_HALF, ANGLE_HALF]`.
pub open spec fn turned(theta: int, turn_left: bool, turn_right: bool, tspd: int) -> int {
    let a = if turn_left {
        wrapped_signed(theta - tspd)
    } else {
        theta
    };
    if turn_right {
        wrapped_signed(a + tspd)
    } else {
        a
    }
}

/// One speed step along a heading, as a fixed-point displacement pair.
pub open spec fn speed_step(theta: int, speed: int) -> (int, int) {
    (
        div_trunc(speed * cos_units(wrapped360(theta)), TRIG_ONE as int),
        div_trunc(speed * sin_units(wrapped360(theta)), TRIG_ONE as int),
    )
}

/// The position proposed by the translation inputs and jitter: forward
/// adds a speed step along the heading, backward subtracts one, and the
/// injected noise is added when enabled.
#[verifier::opaque]
pub open spec fn spec_proposed(
    a: Agent,
    turn_left: bool,
    turn_right: bool,
    forward: bool,
    backward: bool,
    add_noise: bool,
    nx: int,
    ny: int,
    cfg: SimConfig,
) -> (int, int) {
    let th = turned(a.theta as int, turn_left, turn_right, cfg.turn_speed as int);
    let d = speed_step(th, cfg.speed as int);
    let mx = (if forward {
        d.0
    } else {
        0
    }) - (if backward {
        d.0
    } else {
        0
    });
    let my = (if forward {
        d.1
    } else {
        0
    }) - (if backward {
        d.1
    } else {
        0
    });
    let jx = if add_noise {
        nx
    } else {
        0
    };
    let jy = if add_noise {
        ny
    } else {
        0
    };
    (a.x + mx + jx, a.y + my + jy)
}

/// Whether both bounding corners of the point one speed step along `dir`
/// from `(x, y)` land on walkable terrain.
pub open spec fn dir_walkable(
    g: Grid,
    x: int,
    y: int,
    dir: int,
    speed: int,
    radius: int,
) -> bool {
    let d = speed_step(dir, speed);
    let tx = x + d.0;
    let ty = y + d.1;
    g.walkable_at(tx - radius, ty - radius) && g.walkable_at(tx + radius, ty + radius)
}

/// Folds one cardinal direction into the standing best `(distance, dir)`
/// choice: a walkable direction strictly closer in angle to the heading
/// replaces the standing choice.
pub open spec fn pick_dir(
    g: Grid,
    x: int,
    y: int,
    theta: int,
    speed: int,
    radius: int,
    dir: int,
    best: Option<(int, int)>,
) -> Option<(int, int)> {
    if dir_walkable(g, x, y, dir, speed, radius) {
        let dist = spec_angular_distance(theta, dir);
        match best {
            Option::None => Option::Some((dist, dir)),
            Option::Some(b) => if dist < b.0 {
                Option::Some((dist, dir))
            } else {
                best
            },
        }
    } else {
        best
    }
}

/// The wall-avoidance target: of the four cardinal directions that are
/// walkable one step away, the one closest in angle to the heading, in
/// the order east, north, west, south.
pub open spec fn nudge_target(g: Grid, x: int, y: int, theta: int, speed: int, radius: int) -> Option<
    (int, int),
> {
    let b0 = pick_dir(g, x, y, theta, speed, radius, 0, Option::None);
    let b1 = pick_dir(g, x, y, theta, speed, radius, ANGLE_QUARTER as int, b0);
    let b2 = pick_dir(g, x, y, theta, speed, radius, ANGLE_HALF as int, b1);
    pick_dir(g, x, y, theta, speed, radius, 3 * ANGLE_QUARTER as int, b2)
}

/// The heading after a rejected move: turned by at most one turn-speed
/// step toward the nudge target, or unchanged when no direction is open.
#[verifier::opaque]
pub open spec fn nudged_heading(g: Grid, x: int, y: int, th: int, speed: int, radius: int, tspd: int) -> int {
    match nudge_target(g, x, y, th, speed, radius) {
        Option::None => th,
        Option::Some(b) => wrapped_signed(
            th + clamped(spec_shortest_delta(th, b.1), -tspd, tspd),
        ),
    }
}

/// The full kinematic step: the turned heading, the proposed translation,
/// the collision decision with its wall-avoidance nudge, and on every
/// path the final clamp to the surface.  The boolean is whether a
/// translation was attempted, regardless of whether it succeeded.
pub open spec fn spec_update(
    a: Agent,
    turn_left: bool,
    turn_right: bool,
    forward: bool,
    backward: bool,
    add_noise: bool,
    nx: int,
    ny: int,
    check_walkable: bool,
    surface_w: int,
    surface_h: int,
    g: Grid,
    cfg: SimConfig,
) -> (Agent, bool) {
    let th = turned(a.theta as int, turn_left, turn_right, cfg.turn_speed as int);
    let p = spec_proposed(a, turn_left, turn_right, forward, backward, add_noise, nx, ny, cfg);
    let should = forward || backward;
    let radius = cfg.radius as int;
    if check_walkable && !(g.walkable_at(p.0 - radius, p.1 - radius) && g.walkable_at(
        p.0 + radius,
        p.1 + radius,
    )) {
        (
            Agent {
                x: clamped(a.x as int, radius, surface_w) as i64,
                y: clamped(a.y as int, radius, surface_h) as i64,
                theta: nudged_heading(g, a.x as int, a.y as int, th, cfg.speed as int, radius, cfg.turn_speed as int) as i64,
                ..a
            },
            should,
        )
    } else {
        (
            Agent {
                x: clamped(p.0, radius, surface_w) as i64,
                y: clamped(p.1, radius, surface_h) as i64,
                theta: th as i64,
                ..a
            },
            should,
        )
    }
}

impl Agent {
    /// Advances the agent one step from the held inputs: turn inputs
    /// adjust the heading, translation inputs propose a move along it,
    /// jitter is added when enabled, and with collision checking on the
    /// move is taken only when both bounding corners of the proposed
    /// point are walkable - otherwise the position stays and the heading
    /// is nudged by at most one turn step toward the nearest open
    /// cardinal direction.  On every path the position is clamped to the
    /// surface as a final safety net.  Returns whether a translation was
    /// attempted, whether or not it was applied.
    #[verifier::rlimit(100)]
    pub fn update(
        &mut self,
        turn_left: bool,
        turn_right: bool,
        forward: bool,
        backward: bool,
        add_noise: bool,
        noise_x: i64,
        noise_y: i64,
        check_walkable: bool,
        surface_w: i64,
        surface_h: i64,
        map: &Grid,
        cfg: &SimConfig,
    ) -> (r: bool)
        requires
            old(self).wf(),
            map.wf(),
            cfg.wf(),
            -1_000_000 <= noise_x <= 1_000_000,
            -1_000_000 <= noise_y <= 1_000_000,
            cfg.radius <= surface_w <= 190_000_000,
            cfg.radius <= surface_h <= 190_000_000,
            -190_000_000 <= old(self).x <= 190_000_000,
            -190_000_000 <= old(self).y <= 190_000_000,
        ensures
            ({
                let expect = spec_update(
                    *old(self),
                    turn_left,
                    turn_right,
                    forward,
                    backward,
                    add_noise,
                    noise_x as int,
                    noise_y as int,
                    check_walkable,
                    surface_w as int,
                    surface_h as int,
                    *map,
                    *cfg,
                );
                *final(self) == expect.0 && r == expect.1
            }),
            r == (forward || backward),
            final(self).wf(),
            final(self).fov_angle == old(self).fov_angle,
            final(self).fov_range == old(self).fov_range,
    {
        let mut should_update = false;
        if turn_left {
            self.theta = wrap_signed(self.theta - cfg.turn_speed);
        }
        if turn_right {
            self.theta = wrap_signed(self.theta + cfg.turn_speed);
        }
        let ghost th = self.theta as int;
        proof {
            assert(th == turned(
                old(self).theta as int,
                turn_left,
                turn_right,
                cfg.turn_speed as int,
            ));
        }

        let mut new_x = self.x;
        let mut new_y = self.y;
        if forward || backward {
            let c = cos_fixed(wrap_angle(self.theta));
            let sn = sin_fixed(wrap_angle(self.theta));
            proof {
                assert(-1_024_000_000 <= cfg.speed * c <= 1_024_000_000) by (nonlinear_arith)
                    requires
                        0 <= cfg.speed <= 1_000_000,
                        -1024 <= c <= 1024,
                ;
                assert(-1_024_000_000 <= cfg.speed * sn <= 1_024_000_000) by (nonlinear_arith)
                    requires
                        0 <= cfg.speed <= 1_000_000,
                        -1024 <= sn <= 1024,
                ;
            }
            let dx = div_trunc_i64(cfg.speed * c, TRIG_ONE);
            let dy = div_trunc_i64(cfg.speed * sn, TRIG_ONE);
            proof {
                assert(-1_000_000 <= dx <= 1_000_000);
                assert(-1_000_000 <= dy <= 1_000_000);
            }
            if forward {
                new_x = new_x + dx;
                new_y = new_y + dy;
                should_update = true;
            }
            if backward {
                new_x = new_x - dx;
                new_y = new_y - dy;
                should_update = true;
            }
        }
        if add_noise {
            new_x = new_x + noise_x;
            new_y = new_y + noise_y;
        }
        proof {
            assert((new_x as int, new_y as int) == spec_proposed(
                *old(self),
                turn_left,
                turn_right,
                forward,
                backward,
                add_noise,
                noise_x as int,
                noise_y as int,
                *cfg,
            )) by {
                reveal(spec_proposed);
            }
        }

        if check_walkable {
            let ok1 = map.is_walkable(new_x - cfg.radius, new_y - cfg.radius);
            let ok2 = map.is_walkable(new_x + cfg.radius, new_y + cfg.radius);
            if !(ok1 && ok2) {
                let th2 = self.nudge_toward_open(map, cfg);
                self.theta = th2;
                self.x = clamp_i64(self.x, cfg.radius, surface_w);
                self.y = clamp_i64(self.y, cfg.radius, surface_h);
                proof {
                    let expect = spec_update(
                        *old(self),
                        turn_left,
                        turn_right,
                        forward,
                        backward,
                        add_noise,
                        noise_x as int,
                        noise_y as int,
                        check_walkable,
                        surface_w as int,
                        surface_h as int,
                        *map,
                        *cfg,
                    );
                    assert(*self == expect.0);
                    assert(should_update == expect.1);
                }
                return should_update;
            }
        }
        self.x = clamp_i64(new_x, cfg.radius, surface_w);
        self.y = clamp_i64(new_y, cfg.radius, surface_h);
        proof {
            let expect = spec_update(
                *old(self),
                turn_left,
                turn_right,
                forward,
                backward,
                add_noise,
                noise_x as int,
                noise_y as int,
                check_walkable,
                surface_w as int,
                surface_h as int,
                *map,
                *cfg,
            );
            assert(*self == expect.0);
            assert(should_update == expect.1);
        }
        should_update
    }

    /// Turns the heading by at most one turn step toward the nearest
    /// walkable cardinal direction, returning the new heading; with no
    /// open direction the heading stays.
    fn nudge_toward_open(&self, map: &Grid, cfg: &SimConfig) -> (r: i64)
        requires
            self.wf(),
            map.wf(),
            cfg.wf(),
            -190_000_000 <= self.x <= 190_000_000,
            -190_000_000 <= self.y <= 190_000_000,
        ensures
            r == nudged_heading(
                *map,
                self.x as int,
                self.y as int,
                self.theta as int,
                cfg.speed as int,
                cfg.radius as int,
                cfg.turn_speed as int,
            ),
            -ANGLE_HALF < r <= ANGLE_HALF,
    {
        let mut best_dist: i64 = 0;
        let mut best_dir: i64 = 0;
        let mut found = false;
        let ghost dirs: Seq<int> = seq![0, ANGLE_QUARTER as int, ANGLE_HALF as int, 3 * ANGLE_QUARTER as int];

        let mut idx: usize = 0;
        while idx < 4
            invariant
                self.wf(),
                map.wf(),
                cfg.wf(),
                -190_000_000 <= self.x <= 190_000_000,
                -190_000_000 <= self.y <= 190_000_000,
                idx <= 4,
                dirs == seq![0int, ANGLE_QUARTER as int, ANGLE_HALF as int, 3 * ANGLE_QUARTER as int],
                found ==> 0 <= best_dist <= ANGLE_HALF && 0 <= best_dir < ANGLE_FULL,
                fold_picks(
                    *map,
                    self.x as int,
                    self.y as int,
                    self.theta as int,
                    cfg.speed as int,
                    cfg.radius as int,
                    dirs,
                    idx as int,
                ) == (if found {
                    Option::Some((best_dist as int, best_dir as int))
                } else {
                    Option::<(int, int)>::None
                }),
            decreases 4 - idx,
        {
            let dir: i64 = if idx == 0 {
                0
            } else if idx == 1 {
                ANGLE_QUARTER
            } else if idx == 2 {
                ANGLE_HALF
            } else {
                3 * ANGLE_QUARTER
            };
            let c = cos_fixed(dir);
            let sn = sin_fixed(dir);
            proof {
                assert(-1_024_000_000 <= cfg.speed * c <= 1_024_000_000) by (nonlinear_arith)
                    requires
                        0 <= cfg.speed <= 1_000_000,
                        -1024 <= c <= 1024,
                ;
                assert(-1_024_000_000 <= cfg.speed * sn <= 1_024_000_000) by (nonlinear_arith)
                    requires
                        0 <= cfg.speed <= 1_000_000,
                        -1024 <= sn <= 1024,
                ;
            }
            let dx = div_trunc_i64(cfg.speed * c, TRIG_ONE);
            let dy = div_trunc_i64(cfg.speed * sn, TRIG_ONE);
            let tx = self.x + dx;
            let ty = self.y + dy;
            let ok = map.is_walkable(tx - cfg.radius, ty - cfg.radius) && map.is_walkable(
                tx + cfg.radius,
                ty + cfg.radius,
            );
            if ok {
                let dist = angular_distance(self.theta, dir);
                if !found || dist < best_dist {
                    best_dist = dist;
                    best_dir = dir;
                    found = true;
                }
            }
            idx += 1;
        }
        proof {
            let g = *map;
            let x = self.x as int;
            let y = self.y as int;
            let th = self.theta as int;
            let sp = cfg.speed as int;
            let rad = cfg.radius as int;
            assert(fold_picks(g, x, y, th, sp, rad, dirs, 0) == Option::<(int, int)>::None);
            assert(fold_picks(g, x, y, th, sp, rad, dirs, 1) == pick_dir(
                g, x, y, th, sp, rad, 0, Option::None,
            ));
            assert(fold_picks(g, x, y, th, sp, rad, dirs, 2) == pick_dir(
                g, x, y, th, sp, rad, ANGLE_QUARTER as int,
                fold_picks(g, x, y, th, sp, rad, dirs, 1),
            ));
            assert(fold_picks(g, x, y, th, sp, rad, dirs, 3) == pick_dir(
                g, x, y, th, sp, rad, ANGLE_HALF as int,
                fold_picks(g, x, y, th, sp, rad, dirs, 2),
            ));
            assert(fold_picks(g, x, y, th, sp, rad, dirs, 4) == pick_dir(
                g, x, y, th, sp, rad, 3 * ANGLE_QUARTER as int,
                fold_picks(g, x, y, th, sp, rad, dirs, 3),
            ));
            assert(fold_picks(g, x, y, th, sp, rad, dirs, 4) == nudge_target(g, x, y, th, sp, rad));
            reveal(nudged_heading);
        }
        if found {
            let delta = shortest_angle_delta(self.theta, best_dir);
            let step = clamp_i64(delta, -cfg.turn_speed, cfg.turn_speed);
            wrap_signed(self.theta + step)
        } else {
            self.theta
        }
    }
}

/// The standing best choice after folding the first `n` of the four
/// cardinal directions.
pub open spec fn fold_picks(
    g: Grid,
    x: int,
    y: int,
    theta: int,
    speed: int,
    radius: int,
    dirs: Seq<int>,
    n: int,
) -> Option<(int, int)>
    decreases n,
{
    if n <= 0 {
        Option::None
    } else {
        pick_dir(g, x, y, theta, speed, radius, dirs[n - 1], fold_picks(g, x, y, theta, speed, radius, dirs, n - 1))
    }
}


/// With collision checking on, a kinematic step either leaves the
/// position exactly where it was (the move was rejected), or moves to a
/// proposed point both of whose bounding corners are walkable, clamped
/// to the surface: no step carries the agent onto a Wall tile.
pub proof fn lemma_update_respects_walls(
    a: Agent,
    turn_left: bool,
    turn_right: bool,
    forward: bool,
    backward: bool,
    add_noise: bool,
    nx: int,
    ny: int,
    surface_w: int,
    surface_h: int,
    g: Grid,
    cfg: SimConfig,
)
    requires
        cfg.wf(),
        cfg.radius <= surface_w <= 190_000_000,
        cfg.radius <= surface_h <= 190_000_000,
    ensures
        ({
            let p = spec_proposed(
                a,
                turn_left,
                turn_right,
                forward,
                backward,
                add_noise,
                nx,
                ny,
                cfg,
            );
            let r = spec_update(
                a,
                turn_left,
                turn_right,
                forward,
                backward,
                add_noise,
                nx,
                ny,
                true,
                surface_w,
                surface_h,
                g,
                cfg,
            );
            (r.0.x == clamped(a.x as int, cfg.radius as int, surface_w) && r.0.y == clamped(
                a.y as int,
                cfg.radius as int,
                surface_h,
            )) || (g.walkable_at(
                p.0 - cfg.radius,
                p.1 - cfg.radius,
            ) && g.walkable_at(p.0 + cfg.radius, p.1 + cfg.radius) && r.0.x == clamped(
                p.0,
                cfg.radius as int,
                surface_w,
            ) && r.0.y == clamped(p.1, cfg.radius as int, surface_h))
        }),
{
}

/// A kinematic step never modifies the sensor parameters, and an agent
/// with a heading in `(-ANGLE_HALF, ANGLE_HALF]` keeps it there through
/// any sequence of inputs.
pub proof fn lemma_update_heading_range(
    a: Agent,
    turn_left: bool,
    turn_right: bool,
    forward: bool,
    backward: bool,
    add_noise: bool,
    nx: int,
    ny: int,
    check_walkable: bool,
    surface_w: int,
    surface_h: int,
    g: Grid,
    cfg: SimConfig,
)
    requires
        -ANGLE_HALF < a.theta <= ANGLE_HALF,
        1 <= cfg.turn_speed <= ANGLE_HALF,
    ensures
        ({
            let r = spec_update(
                a,
                turn_left,
                turn_right,
                forward,
                backward,
                add_noise,
                nx,
                ny,
                check_walkable,
                surface_w,
                surface_h,
                g,
                cfg,
            );
            -ANGLE_HALF < r.0.theta <= ANGLE_HALF && r.0.fov_angle == a.fov_angle
                && r.0.fov_range == a.fov_range
        }),
{
    reveal(nudged_heading);
}


/// Weighing further candidates never lowers the standing score.
proof fn lemma_best_score_monotone(
    truth: Agent,
    sm: SlamMap,
    g: Grid,
    cfg: SimConfig,
    x0: int,
    y0: int,
    k: int,
    bs: int,
    bp: (int, int),
)
    requires
        cfg.loc_margin >= 0,
    ensures
        best_from(truth, sm, g, cfg, x0, y0, k, bs, bp).0 >= bs,
    decreases 441 - k,
{
    if 0 <= k < 441 {
        let p = cand_pose(x0, y0, cfg.loc_step as int, k);
        let sc = score_at(truth, sm, g, cfg, p.0, p.1);
        if sc > bs + cfg.loc_margin {
            lemma_best_score_monotone(truth, sm, g, cfg, x0, y0, k + 1, sc, p);
        } else {
            lemma_best_score_monotone(truth, sm, g, cfg, x0, y0, k + 1, bs, bp);
        }
    }
}

/// A localization pass never adopts a worse pose: the winning candidate
/// scores at least the current pose, and strictly above it by more than
/// the margin whenever the position is corrected at all.
pub proof fn lemma_localize_never_worse(
    truth: Agent,
    belief: Agent,
    sm: SlamMap,
    g: Grid,
    cfg: SimConfig,
)
    requires
        cfg.loc_margin >= 0,
    ensures
        ({
            let s0 = score_at(truth, sm, g, cfg, belief.x as int, belief.y as int);
            best_from(
                truth,
                sm,
                g,
                cfg,
                belief.x as int,
                belief.y as int,
                0,
                s0,
                (belief.x as int, belief.y as int),
            ).0 >= s0
        }),
{
    let s0 = score_at(truth, sm, g, cfg, belief.x as int, belief.y as int);
    lemma_best_score_monotone(
        truth,
        sm,
        g,
        cfg,
        belief.x as int,
        belief.y as int,
        0,
        s0,
        (belief.x as int, belief.y as int),
    );
}

/// The hysteresis guard makes localization stable: when no candidate
/// beats the current pose by more than the margin, the winner is the
/// current position itself and the blend leaves it exactly in place.
pub proof fn lemma_localize_stable(
    truth: Agent,
    belief: Agent,
    sm: SlamMap,
    g: Grid,
    cfg: SimConfig,
)
    requires
        ({
            let s0 = score_at(truth, sm, g, cfg, belief.x as int, belief.y as int);
            best_from(
                truth,
                sm,
                g,
                cfg,
                belief.x as int,
                belief.y as int,
                0,
                s0,
                (belief.x as int, belief.y as int),
            ).1 == (belief.x as int, belief.y as int)
        }),
    ensures
        spec_localized(truth, belief, sm, g, cfg) == (belief.x as int, belief.y as int),
{
    lemma_blend_identity(belief.x as int);
    lemma_blend_identity(belief.y as int);
}

/// Blending a pose a fifth of the way toward itself is the identity,
/// toward-zero rounding included.
proof fn lemma_blend_identity(v: int)
    ensures
        div_trunc(4 * v + v, 5) == v,
{
    if v >= 0 {
        vstd::arithmetic::div_mod::lemma_div_multiples_vanish(v, 5);
        assert(4 * v + v == 5 * v);
    } else {
        vstd::arithmetic::div_mod::lemma_div_multiples_vanish(-v, 5);
        assert(-(4 * v + v) == 5 * (-v));
    }
}

} // verus!
