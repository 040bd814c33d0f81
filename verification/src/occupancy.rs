//! The belief map: a tri-state occupancy grid built from simulated scans.
//!
//! A scan marches the ground-truth agent's rays over the true terrain to
//! decide what stops each ray, but records every observation at the tile
//! the *belief* agent's pose resolves the same sample to.  That decoupling
//! models sensor data mapped into a possibly offset internal frame.
use vstd::prelude::*;
use crate::agent::Agent;
use crate::geom::TRIG_ONE;
use crate::geom::div_nn;
use crate::grid::Grid;
use crate::grid::Tile;
use crate::raycast::ray_cos;
use crate::raycast::ray_dir;
use crate::raycast::ray_sin;
use crate::raycast::sample_coord;
use crate::raycast::sample_point;
use crate::raycast::samples_per_ray;
use crate::raycast::tile_index;
use crate::raycast::tile_of;
use crate::SimConfig;

verus! {

/// One belief cell: never observed, observed open, or observed blocked.
#[derive(Clone, Copy, PartialEq, Eq, Structural, Debug)]
pub enum SCell {
    Unknown,
    Free,
    Occupied,
}

/// A belief grid with one observation write: cell `(x, y)` set to `v`.
pub open spec fn written(cells: Seq<Seq<SCell>>, x: int, y: int, v: SCell) -> Seq<Seq<SCell>> {
    cells.update(y, cells[y].update(x, v))
}

/// The belief grid after one ray of a scan, marching from step `j`.
/// While the ground-truth sample is walkable the belief tile (when in
/// bounds) is marked Free and the march goes on; at the first
/// non-walkable sample the belief tile (when in bounds) is marked
/// Occupied and the ray ends.
pub open spec fn scan_ray(
    cells: Seq<Seq<SCell>>,
    g: Grid,
    ax: int,
    ay: int,
    bx: int,
    by: int,
    c: int,
    s: int,
    j: int,
    max_j: int,
    bw: int,
    bh: int,
) -> Seq<Seq<SCell>>
    decreases max_j - j,
{
    if j >= max_j {
        cells
    } else {
        let twx = sample_coord(ax, g.cell_size as int, c, j);
        let twy = sample_coord(ay, g.cell_size as int, s, j);
        let bwx = sample_coord(bx, g.cell_size as int, c, j);
        let bwy = sample_coord(by, g.cell_size as int, s, j);
        let walk = g.walkable_at(twx, twy);
        let bt_x = tile_of(bwx, g.cell_size as int, bw);
        let bt_y = tile_of(bwy, g.cell_size as int, bh);
        let cur = if bt_x is Some && bt_y is Some {
            written(
                cells,
                bt_x.unwrap(),
                bt_y.unwrap(),
                if walk {
                    SCell::Free
                } else {
                    SCell::Occupied
                },
            )
        } else {
            cells
        };
        if walk {
            scan_ray(cur, g, ax, ay, bx, by, c, s, j + 1, max_j, bw, bh)
        } else {
            cur
        }
    }
}

/// The belief grid after the first `n` rays of a scan.
pub open spec fn scan_upto(
    cells: Seq<Seq<SCell>>,
    g: Grid,
    ax: int,
    ay: int,
    bx: int,
    by: int,
    theta: int,
    fov: int,
    num_rays: int,
    max_j: int,
    bw: int,
    bh: int,
    n: int,
) -> Seq<Seq<SCell>>
    decreases n,
{
    if n <= 0 {
        cells
    } else {
        scan_ray(
            scan_upto(cells, g, ax, ay, bx, by, theta, fov, num_rays, max_j, bw, bh, n - 1),
            g,
            ax,
            ay,
            bx,
            by,
            ray_cos(theta, fov, num_rays, n - 1),
            ray_sin(theta, fov, num_rays, n - 1),
            0,
            max_j,
            bw,
            bh,
        )
    }
}

/// The agent's internal occupancy map, the same tile layout as the
/// ground-truth grid it is built against.
pub struct SlamMap {
    pub width: usize,
    pub height: usize,
    pub cells: Vec<Vec<SCell>>,
}

impl SlamMap {
    /// Well-formedness: the cell array matches the recorded dimensions.
    pub open spec fn wf(self) -> bool {
        &&& self.cells@.len() == self.height
        &&& forall|i: int|
            0 <= i < self.cells@.len() ==> (#[trigger] self.cells@[i])@.len() == self.width
        &&& self.width <= 4000
        &&& self.height <= 4000
    }

    /// The belief cells as a grid of values.
    pub open spec fn view_cells(self) -> Seq<Seq<SCell>> {
        Seq::new(self.cells@.len(), |i: int| self.cells@[i]@)
    }

    /// The belief at tile `(tx, ty)`.
    pub open spec fn cell_at(self, tx: int, ty: int) -> SCell {
        self.cells@[ty]@[tx]
    }

    /// An empty, uninitialized belief map.
    pub fn new() -> (r: SlamMap)
        ensures
            r.width == 0 && r.height == 0 && r.cells@.len() == 0,
    {
        SlamMap { width: 0, height: 0, cells: Vec::new() }
    }

    /// Sizes the belief map for a surface of `surface_w` by `surface_h`
    /// world subunits at the configured cell size, every cell Unknown.
    pub fn init(&mut self, surface_w: i64, surface_h: i64, cfg: &SimConfig)
        requires
            cfg.wf(),
            0 <= surface_w,
            0 <= surface_h,
            surface_w as int / cfg.cell_size as int <= 4000,
            surface_h as int / cfg.cell_size as int <= 4000,
        ensures
            final(self).wf(),
            final(self).width == surface_w as int / cfg.cell_size as int,
            final(self).height == surface_h as int / cfg.cell_size as int,
            forall|tx: int, ty: int|
                0 <= ty < final(self).height && 0 <= tx < final(self).width
                    ==> final(self).cell_at(tx, ty) == SCell::Unknown,
    {
        let w = div_nn(surface_w, cfg.cell_size) as usize;
        let h = div_nn(surface_h, cfg.cell_size) as usize;
        let mut cells: Vec<Vec<SCell>> = Vec::new();
        let mut y: usize = 0;
        while y < h
            invariant
                y <= h <= 4000,
                w <= 4000,
                cells@.len() == y,
                forall|i: int| 0 <= i < cells@.len() ==> (#[trigger] cells@[i])@.len() == w,
                forall|tx: int, ty: int|
                    0 <= ty < cells@.len() && 0 <= tx < w ==> #[trigger] cells@[ty]@[tx]
                        == SCell::Unknown,
            decreases h - y,
        {
            let mut row: Vec<SCell> = Vec::new();
            let mut x: usize = 0;
            while x < w
                invariant
                    x <= w,
                    row@.len() == x,
                    forall|j: int| 0 <= j < row@.len() ==> #[trigger] row@[j] == SCell::Unknown,
                decreases w - x,
            {
                row.push(SCell::Unknown);
                x += 1;
            }
            cells.push(row);
            y += 1;
        }
        self.width = w;
        self.height = h;
        self.cells = cells;
    }

    /// Runs one scan: raytraces off the ground-truth `agent` against the
    /// true terrain, and records each observation into this belief map at
    /// the tile given by `slam_agent`'s pose, Free while the truth sample
    /// is walkable and Occupied at the sample that stops the ray.
    pub fn update_with_scan(
        &mut self,
        agent: &Agent,
        slam_agent: &Agent,
        grid: &Grid,
        cfg: &SimConfig,
    )
        requires
            old(self).wf(),
            agent.wf(),
            slam_agent.wf(),
            grid.wf(),
            cfg.wf(),
        ensures
            final(self).wf(),
            final(self).width == old(self).width,
            final(self).height == old(self).height,
            final(self).view_cells() == scan_upto(
                old(self).view_cells(),
                *grid,
                agent.x as int,
                agent.y as int,
                slam_agent.x as int,
                slam_agent.y as int,
                agent.theta as int,
                agent.fov_angle as int,
                cfg.num_rays as int,
                samples_per_ray(agent.fov_range as int, grid.cell_size as int),
                old(self).width as int,
                old(self).height as int,
                cfg.num_rays as int,
            ),
    {
        let max_j: i64 = div_nn(agent.fov_range, grid.cell_size) + 1;
        let ghost gmax = samples_per_ray(agent.fov_range as int, grid.cell_size as int);
        let ghost view0 = self.view_cells();
        let ghost bw = self.width as int;
        let ghost bh = self.height as int;
        let mut i: usize = 0;
        while i < cfg.num_rays
            invariant
                self.wf(),
                agent.wf(),
                slam_agent.wf(),
                grid.wf(),
                cfg.wf(),
                self.width == bw,
                self.height == bh,
                i <= cfg.num_rays,
                1 <= max_j <= 100_000_001,
                max_j == gmax,
                gmax == agent.fov_range as int / grid.cell_size as int + 1,
                self.view_cells() == scan_upto(
                    view0,
                    *grid,
                    agent.x as int,
                    agent.y as int,
                    slam_agent.x as int,
                    slam_agent.y as int,
                    agent.theta as int,
                    agent.fov_angle as int,
                    cfg.num_rays as int,
                    gmax,
                    bw,
                    bh,
                    i as int,
                ),
            decreases cfg.num_rays - i,
        {
            let (c, s) = ray_dir(agent.theta, agent.fov_angle, cfg.num_rays, i);
            let ghost pre = self.view_cells();
            let mut j: i64 = 0;
            while j < max_j
                invariant_except_break
                    self.wf(),
                    grid.wf(),
                    agent.wf(),
                    slam_agent.wf(),
                    self.width == bw,
                    self.height == bh,
                    0 <= j <= max_j,
                    1 <= max_j <= 100_000_001,
                    max_j == agent.fov_range as int / grid.cell_size as int + 1,
                    -TRIG_ONE <= c <= TRIG_ONE,
                    -TRIG_ONE <= s <= TRIG_ONE,
                    scan_ray(
                        pre,
                        *grid,
                        agent.x as int,
                        agent.y as int,
                        slam_agent.x as int,
                        slam_agent.y as int,
                        c as int,
                        s as int,
                        0,
                        max_j as int,
                        bw,
                        bh,
                    ) == scan_ray(
                        self.view_cells(),
                        *grid,
                        agent.x as int,
                        agent.y as int,
                        slam_agent.x as int,
                        slam_agent.y as int,
                        c as int,
                        s as int,
                        j as int,
                        max_j as int,
                        bw,
                        bh,
                    ),
                ensures
                    self.wf(),
                    self.width == bw,
                    self.height == bh,
                    self.view_cells() == scan_ray(
                        pre,
                        *grid,
                        agent.x as int,
                        agent.y as int,
                        slam_agent.x as int,
                        slam_agent.y as int,
                        c as int,
                        s as int,
                        0,
                        max_j as int,
                        bw,
                        bh,
                    ),
                decreases max_j - j,
            {
                proof {
                    vstd::arithmetic::div_mod::lemma_fundamental_div_mod(
                        agent.fov_range as int,
                        grid.cell_size as int,
                    );
                    assert((j as int) * (grid.cell_size as int) <= (agent.fov_range as int
                        / grid.cell_size as int) * (grid.cell_size as int)) by (nonlinear_arith)
                        requires
                            0 <= j <= agent.fov_range as int / grid.cell_size as int,
                            0 < grid.cell_size,
                    ;
                }
                let twx = sample_point(agent.x, grid.cell_size, c, j);
                let twy = sample_point(agent.y, grid.cell_size, s, j);
                let bwx = sample_point(slam_agent.x, grid.cell_size, c, j);
                let bwy = sample_point(slam_agent.y, grid.cell_size, s, j);
                let walk = grid.is_walkable(twx, twy);
                let obx = tile_index(bwx, grid.cell_size, self.width);
                let oby = tile_index(bwy, grid.cell_size, self.height);
                let ghost before = self.view_cells();
                if obx.is_some() && oby.is_some() {
                    let btx = obx.unwrap();
                    let bty = oby.unwrap();
                    let v = if walk {
                        SCell::Free
                    } else {
                        SCell::Occupied
                    };
                    self.cells[bty][btx] = v;
                    proof {
                        assert(self.view_cells() =~~= written(before, btx as int, bty as int, v));
                    }
                }
                if !walk {
                    break ;
                }
                j += 1;
            }
            proof {
                assert(scan_upto(
                    view0,
                    *grid,
                    agent.x as int,
                    agent.y as int,
                    slam_agent.x as int,
                    slam_agent.y as int,
                    agent.theta as int,
                    agent.fov_angle as int,
                    cfg.num_rays as int,
                    gmax,
                    bw,
                    bh,
                    i + 1,
                ) == scan_ray(
                    pre,
                    *grid,
                    agent.x as int,
                    agent.y as int,
                    slam_agent.x as int,
                    slam_agent.y as int,
                    ray_cos(
                        agent.theta as int,
                        agent.fov_angle as int,
                        cfg.num_rays as int,
                        i as int,
                    ),
                    ray_sin(
                        agent.theta as int,
                        agent.fov_angle as int,
                        cfg.num_rays as int,
                        i as int,
                    ),
                    0,
                    gmax,
                    bw,
                    bh,
                ));
            }
            i += 1;
        }
    }
}


/// The truth classification of a tile: Free where the terrain is Floor,
/// Occupied elsewhere.
pub open spec fn classify(g: Grid, tx: int, ty: int) -> SCell {
    if g.tile_at(tx, ty) == Tile::Floor {
        SCell::Free
    } else {
        SCell::Occupied
    }
}

/// Whether a belief grid has the dimensions of the terrain grid.
pub open spec fn dims_match(cells: Seq<Seq<SCell>>, g: Grid) -> bool {
    cells.len() == g.height && forall|y: int|
        0 <= y < cells.len() ==> (#[trigger] cells[y]).len() == g.width
}

/// One collocated ray only writes truth classifications: every cell
/// keeps its value or takes the classification of its own tile, and a
/// cell already holding its classification keeps it.
proof fn lemma_scan_ray_collocated(
    cells: Seq<Seq<SCell>>,
    g: Grid,
    ax: int,
    ay: int,
    c: int,
    s: int,
    j: int,
    max_j: int,
)
    requires
        g.wf(),
        dims_match(cells, g),
    ensures
        ({
            let out = scan_ray(
                cells,
                g,
                ax,
                ay,
                ax,
                ay,
                c,
                s,
                j,
                max_j,
                g.width as int,
                g.height as int,
            );
            &&& dims_match(out, g)
            &&& forall|x: int, y: int|
                0 <= y < g.height && 0 <= x < g.width ==> (#[trigger] out[y][x] == cells[y][x]
                    || out[y][x] == classify(g, x, y))
            &&& forall|x: int, y: int|
                0 <= y < g.height && 0 <= x < g.width && cells[y][x] == classify(g, x, y)
                    ==> #[trigger] out[y][x] == classify(g, x, y)
        }),
    decreases max_j - j,
{
    if j < max_j {
        let twx = sample_coord(ax, g.cell_size as int, c, j);
        let twy = sample_coord(ay, g.cell_size as int, s, j);
        let walk = g.walkable_at(twx, twy);
        let bt_x = tile_of(twx, g.cell_size as int, g.width as int);
        let bt_y = tile_of(twy, g.cell_size as int, g.height as int);
        let cur = if bt_x is Some && bt_y is Some {
            written(
                cells,
                bt_x.unwrap(),
                bt_y.unwrap(),
                if walk {
                    SCell::Free
                } else {
                    SCell::Occupied
                },
            )
        } else {
            cells
        };
        if bt_x is Some && bt_y is Some {
            assert(cur[bt_y.unwrap()] == cells[bt_y.unwrap()].update(bt_x.unwrap(), if walk {
                SCell::Free
            } else {
                SCell::Occupied
            }));
            assert(walk ==> g.tile_at(bt_x.unwrap(), bt_y.unwrap()) == Tile::Floor);
            assert(!walk ==> g.tile_at(bt_x.unwrap(), bt_y.unwrap()) != Tile::Floor);
            assert(dims_match(cur, g));
        }
        if walk {
            lemma_scan_ray_collocated(cur, g, ax, ay, c, s, j + 1, max_j);
        }
    }
}

/// A collocated scan only writes truth classifications, ray after ray.
proof fn lemma_scan_upto_collocated(
    cells: Seq<Seq<SCell>>,
    g: Grid,
    ax: int,
    ay: int,
    theta: int,
    fov: int,
    num_rays: int,
    max_j: int,
    n: int,
)
    requires
        g.wf(),
        dims_match(cells, g),
    ensures
        ({
            let out = scan_upto(
                cells,
                g,
                ax,
                ay,
                ax,
                ay,
                theta,
                fov,
                num_rays,
                max_j,
                g.width as int,
                g.height as int,
                n,
            );
            &&& dims_match(out, g)
            &&& forall|x: int, y: int|
                0 <= y < g.height && 0 <= x < g.width ==> (#[trigger] out[y][x] == cells[y][x]
                    || out[y][x] == classify(g, x, y))
            &&& forall|x: int, y: int|
                0 <= y < g.height && 0 <= x < g.width && cells[y][x] == classify(g, x, y)
                    ==> #[trigger] out[y][x] == classify(g, x, y)
        }),
    decreases n,
{
    if n > 0 {
        lemma_scan_upto_collocated(cells, g, ax, ay, theta, fov, num_rays, max_j, n - 1);
        let mid = scan_upto(
            cells,
            g,
            ax,
            ay,
            ax,
            ay,
            theta,
            fov,
            num_rays,
            max_j,
            g.width as int,
            g.height as int,
            n - 1,
        );
        lemma_scan_ray_collocated(
            mid,
            g,
            ax,
            ay,
            ray_cos(theta, fov, num_rays, n - 1),
            ray_sin(theta, fov, num_rays, n - 1),
            0,
            max_j,
        );
    }
}

/// Along one collocated ray that is unobstructed up to step `j0`, the
/// tile of sample `j0` is written with its truth classification: Free on
/// open floor, Occupied at the sample that stops the ray.
proof fn lemma_scan_ray_observes(
    cells: Seq<Seq<SCell>>,
    g: Grid,
    ax: int,
    ay: int,
    c: int,
    s: int,
    j: int,
    j0: int,
    max_j: int,
)
    requires
        g.wf(),
        dims_match(cells, g),
        0 <= j <= j0 < max_j,
        forall|k: int|
            j <= k < j0 ==> g.walkable_at(
                sample_coord(ax, g.cell_size as int, c, k),
                sample_coord(ay, g.cell_size as int, s, k),
            ),
        tile_of(
            sample_coord(ax, g.cell_size as int, c, j0),
            g.cell_size as int,
            g.width as int,
        ) is Some,
        tile_of(
            sample_coord(ay, g.cell_size as int, s, j0),
            g.cell_size as int,
            g.height as int,
        ) is Some,
    ensures
        ({
            let out = scan_ray(
                cells,
                g,
                ax,
                ay,
                ax,
                ay,
                c,
                s,
                j,
                max_j,
                g.width as int,
                g.height as int,
            );
            let tx = tile_of(
                sample_coord(ax, g.cell_size as int, c, j0),
                g.cell_size as int,
                g.width as int,
            ).unwrap();
            let ty = tile_of(
                sample_coord(ay, g.cell_size as int, s, j0),
                g.cell_size as int,
                g.height as int,
            ).unwrap();
            out[ty][tx] == classify(g, tx, ty)
        }),
    decreases max_j - j,
{
    let twx = sample_coord(ax, g.cell_size as int, c, j);
    let twy = sample_coord(ay, g.cell_size as int, s, j);
    let walk = g.walkable_at(twx, twy);
    let bt_x = tile_of(twx, g.cell_size as int, g.width as int);
    let bt_y = tile_of(twy, g.cell_size as int, g.height as int);
    let cur = if bt_x is Some && bt_y is Some {
        written(
            cells,
            bt_x.unwrap(),
            bt_y.unwrap(),
            if walk {
                SCell::Free
            } else {
                SCell::Occupied
            },
        )
    } else {
        cells
    };
    if bt_x is Some && bt_y is Some {
        assert(cur[bt_y.unwrap()] == cells[bt_y.unwrap()].update(bt_x.unwrap(), if walk {
            SCell::Free
        } else {
            SCell::Occupied
        }));
        assert(dims_match(cur, g));
    }
    if j == j0 {
        assert(cur[bt_y.unwrap()][bt_x.unwrap()] == classify(g, bt_x.unwrap(), bt_y.unwrap()));
        if walk {
            lemma_scan_ray_collocated(cur, g, ax, ay, c, s, j + 1, max_j);
        }
    } else {
        assert(walk);
        lemma_scan_ray_observes(cur, g, ax, ay, c, s, j + 1, j0, max_j);
    }
}

/// After one scan with the belief agent collocated with the ground-truth
/// agent: every cell the scan touched holds the truth classification of
/// its own tile - Free along unobstructed rays, Occupied at the first
/// obstruction - and every cell it never sampled keeps its prior value,
/// so cells of a fresh map stay Unknown.
pub proof fn lemma_collocated_scan_faithful(
    cells: Seq<Seq<SCell>>,
    g: Grid,
    ax: int,
    ay: int,
    theta: int,
    fov: int,
    num_rays: int,
    max_j: int,
    i: int,
    j0: int,
    n: int,
)
    requires
        g.wf(),
        dims_match(cells, g),
        0 <= i < n,
        0 <= j0 < max_j,
        forall|k: int|
            0 <= k < j0 ==> g.walkable_at(
                sample_coord(ax, g.cell_size as int, ray_cos(theta, fov, num_rays, i), k),
                sample_coord(ay, g.cell_size as int, ray_sin(theta, fov, num_rays, i), k),
            ),
        tile_of(
            sample_coord(ax, g.cell_size as int, ray_cos(theta, fov, num_rays, i), j0),
            g.cell_size as int,
            g.width as int,
        ) is Some,
        tile_of(
            sample_coord(ay, g.cell_size as int, ray_sin(theta, fov, num_rays, i), j0),
            g.cell_size as int,
            g.height as int,
        ) is Some,
    ensures
        ({
            let out = scan_upto(
                cells,
                g,
                ax,
                ay,
                ax,
                ay,
                theta,
                fov,
                num_rays,
                max_j,
                g.width as int,
                g.height as int,
                n,
            );
            let tx = tile_of(
                sample_coord(ax, g.cell_size as int, ray_cos(theta, fov, num_rays, i), j0),
                g.cell_size as int,
                g.width as int,
            ).unwrap();
            let ty = tile_of(
                sample_coord(ay, g.cell_size as int, ray_sin(theta, fov, num_rays, i), j0),
                g.cell_size as int,
                g.height as int,
            ).unwrap();
            &&& out[ty][tx] == classify(g, tx, ty)
            &&& forall|x: int, y: int|
                0 <= y < g.height && 0 <= x < g.width ==> (#[trigger] out[y][x] == cells[y][x]
                    || out[y][x] == classify(g, x, y))
        }),
    decreases n,
{
    lemma_scan_upto_collocated(cells, g, ax, ay, theta, fov, num_rays, max_j, n);
    let mid = scan_upto(
        cells,
        g,
        ax,
        ay,
        ax,
        ay,
        theta,
        fov,
        num_rays,
        max_j,
        g.width as int,
        g.height as int,
        n - 1,
    );
    if i == n - 1 {
        lemma_scan_upto_collocated(cells, g, ax, ay, theta, fov, num_rays, max_j, n - 1);
        lemma_scan_ray_observes(
            mid,
            g,
            ax,
            ay,
            ray_cos(theta, fov, num_rays, i),
            ray_sin(theta, fov, num_rays, i),
            0,
            j0,
            max_j,
        );
    } else {
        lemma_collocated_scan_faithful(
            cells,
            g,
            ax,
            ay,
            theta,
            fov,
            num_rays,
            max_j,
            i,
            j0,
            n - 1,
        );
        lemma_scan_upto_collocated(cells, g, ax, ay, theta, fov, num_rays, max_j, n - 1);
        lemma_scan_ray_collocated(
            mid,
            g,
            ax,
            ay,
            ray_cos(theta, fov, num_rays, n - 1),
            ray_sin(theta, fov, num_rays, n - 1),
            0,
            max_j,
        );
        assert(mid[tile_of(
            sample_coord(ay, g.cell_size as int, ray_sin(theta, fov, num_rays, i), j0),
            g.cell_size as int,
            g.height as int,
        ).unwrap()][tile_of(
            sample_coord(ax, g.cell_size as int, ray_cos(theta, fov, num_rays, i), j0),
            g.cell_size as int,
            g.width as int,
        ).unwrap()] == classify(
            g,
            tile_of(
                sample_coord(ax, g.cell_size as int, ray_cos(theta, fov, num_rays, i), j0),
                g.cell_size as int,
                g.width as int,
            ).unwrap(),
            tile_of(
                sample_coord(ay, g.cell_size as int, ray_sin(theta, fov, num_rays, i), j0),
                g.cell_size as int,
                g.height as int,
            ).unwrap(),
        ));
    }
}

} // verus!
