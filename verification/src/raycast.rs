//! The visibility caster: marching rays through the terrain grid.
//!
//! A sweep of `num_rays` evenly spaced rays spans the field of view
//! `[theta - fov/2, theta + fov/2)`; each ray is sampled every `cell_size`
//! world subunits from distance zero to the sensor range.  Samples outside
//! the grid carry no information and are skipped without ending the ray; a
//! Wall sample is reported and ends its ray.  The same angle stepping and
//! sample spacing drive the occupancy scan and the localization score, so
//! all three views of the world stay numerically identical.
use vstd::prelude::*;
use crate::geom::ANGLE_FULL;
use crate::geom::ANGLE_HALF;
use crate::geom::TRIG_ONE;
use crate::geom::cos_fixed;
use crate::geom::cos_units;
use crate::geom::div_nn;
use crate::geom::div_trunc;
use crate::geom::div_trunc_i64;
use crate::geom::sin_fixed;
use crate::geom::sin_units;
use crate::geom::wrap_angle;
use crate::geom::wrapped360;
use crate::grid::Grid;
use crate::grid::Tile;

verus! {

/// The angle of ray `i` of a sweep: the heading, back by half the field of
/// view, forward by `i` of `num_rays` even steps.
pub open spec fn ray_angle(theta: int, fov: int, num_rays: int, i: int) -> int {
    theta - fov / 2 + (i * fov) / num_rays
}

/// The fixed-point cosine of ray `i`'s direction.
pub open spec fn ray_cos(theta: int, fov: int, num_rays: int, i: int) -> int {
    cos_units(wrapped360(ray_angle(theta, fov, num_rays, i)))
}

/// The fixed-point sine of ray `i`'s direction.
pub open spec fn ray_sin(theta: int, fov: int, num_rays: int, i: int) -> int {
    sin_units(wrapped360(ray_angle(theta, fov, num_rays, i)))
}

/// Computes the direction of ray `i` as its `(cosine, sine)` pair.
pub fn ray_dir(theta: i64, fov: i64, num_rays: usize, i: usize) -> (r: (i64, i64))
    requires
        -ANGLE_HALF < theta <= ANGLE_HALF,
        0 <= fov <= ANGLE_FULL,
        1 <= num_rays <= 100_000,
        i < num_rays,
    ensures
        r.0 == ray_cos(theta as int, fov as int, num_rays as int, i as int),
        r.1 == ray_sin(theta as int, fov as int, num_rays as int, i as int),
        -TRIG_ONE <= r.0 <= TRIG_ONE,
        -TRIG_ONE <= r.1 <= TRIG_ONE,
{
    proof {
        assert(0 <= (i as int) * (fov as int) <= 2_160_000_000) by (nonlinear_arith)
            requires
                0 <= i <= 100_000,
                0 <= fov <= 21600,
        ;
    }
    let step = div_nn((i as i64) * fov, num_rays as i64);
    proof {
        assert((i as int) * fov <= (num_rays as int) * fov) by (nonlinear_arith)
            requires
                0 <= i <= num_rays,
                0 <= fov,
        ;
        vstd::arithmetic::div_mod::lemma_div_is_ordered(
            (i as int) * fov,
            (num_rays as int) * fov,
            num_rays as int,
        );
        vstd::arithmetic::div_mod::lemma_div_multiples_vanish(fov as int, num_rays as int);
    }
    let half = div_nn(fov, 2);
    let a = wrap_angle(theta - half + step);
    (cos_fixed(a), sin_fixed(a))
}

/// The world coordinate of sample `j` along a ray from `p` whose direction
/// component is `c`: the origin plus `j` steps of one cell, scaled by the
/// fixed-point direction and rounded toward zero.
pub open spec fn sample_coord(p: int, cell: int, c: int, j: int) -> int {
    p + div_trunc(j * cell * c, TRIG_ONE as int)
}

/// Computes the world coordinate of sample `j` along a ray.
pub fn sample_point(p: i64, cell: i64, c: i64, j: i64) -> (r: i64)
    requires
        -1_000_000_000 <= p <= 1_000_000_000,
        1 <= cell <= 1_000_000,
        -TRIG_ONE <= c <= TRIG_ONE,
        0 <= j,
        j * cell <= 200_000_000,
    ensures
        r == sample_coord(p as int, cell as int, c as int, j as int),
        -300_000_000_000 <= r <= 300_000_000_000,
{
    proof {
        assert(-205_000_000_000 <= (j as int) * cell * c <= 205_000_000_000) by (nonlinear_arith)
            requires
                0 <= (j as int) * cell <= 200_000_000,
                -1024 <= c <= 1024,
        ;
    }
    let m = (j * cell) * c;
    let off = div_trunc_i64(m, TRIG_ONE);
    p + off
}

/// The tile index a world coordinate falls in, or nothing when it lies
/// before tile zero or beyond tile `dim - 1`.
pub open spec fn tile_of(w: int, cell: int, dim: int) -> Option<int> {
    if w >= 0 && w / cell < dim {
        Option::Some(w / cell)
    } else {
        Option::None
    }
}

/// Resolves a world coordinate to its tile index along one axis.
pub fn tile_index(wc: i64, cell: i64, dim: usize) -> (r: Option<usize>)
    requires
        1 <= cell,
        dim <= 4000,
    ensures
        r is Some <==> tile_of(wc as int, cell as int, dim as int) is Some,
        r is Some ==> r.unwrap() == tile_of(wc as int, cell as int, dim as int).unwrap(),
{
    if wc < 0 {
        return Option::None;
    }
    let t = div_nn(wc, cell);
    if t >= dim as i64 {
        Option::None
    } else {
        Option::Some(t as usize)
    }
}

/// One sampled cell of a visibility sweep: which ray saw it, at how many
/// cells of distance, which tile it was and what stands there.
#[derive(Clone, Copy, PartialEq, Eq, Structural, Debug)]
pub struct RaySample {
    pub ray: usize,
    pub step: usize,
    pub tile_x: usize,
    pub tile_y: usize,
    pub tile: Tile,
}

/// The samples of one ray from step `j` on: out-of-bounds samples are
/// skipped without ending the ray, and a Wall sample is kept and ends it.
pub open spec fn spec_ray_samples(
    g: Grid,
    ox: int,
    oy: int,
    c: int,
    s: int,
    ray: int,
    j: int,
    max_j: int,
) -> Seq<RaySample>
    decreases max_j - j,
{
    if j >= max_j {
        Seq::empty()
    } else {
        let wx = sample_coord(ox, g.cell_size as int, c, j);
        let wy = sample_coord(oy, g.cell_size as int, s, j);
        let rest = spec_ray_samples(g, ox, oy, c, s, ray, j + 1, max_j);
        if tile_of(wx, g.cell_size as int, g.width as int) is Some && tile_of(
            wy,
            g.cell_size as int,
            g.height as int,
        ) is Some {
            let tx = tile_of(wx, g.cell_size as int, g.width as int).unwrap();
            let ty = tile_of(wy, g.cell_size as int, g.height as int).unwrap();
            let smp = RaySample {
                ray: ray as usize,
                step: j as usize,
                tile_x: tx as usize,
                tile_y: ty as usize,
                tile: g.tile_at(tx, ty),
            };
            if g.tile_at(tx, ty) == Tile::Wall {
                seq![smp]
            } else {
                seq![smp] + rest
            }
        } else {
            rest
        }
    }
}

/// The samples of the first `n` rays of a sweep, in ray order.
pub open spec fn spec_cast_upto(
    g: Grid,
    ox: int,
    oy: int,
    theta: int,
    fov: int,
    num_rays: int,
    max_j: int,
    n: int,
) -> Seq<RaySample>
    decreases n,
{
    if n <= 0 {
        Seq::empty()
    } else {
        spec_cast_upto(g, ox, oy, theta, fov, num_rays, max_j, n - 1) + spec_ray_samples(
            g,
            ox,
            oy,
            ray_cos(theta, fov, num_rays, n - 1),
            ray_sin(theta, fov, num_rays, n - 1),
            n - 1,
            0,
            max_j,
        )
    }
}

/// The full visibility sweep: every sample of every ray.
pub open spec fn spec_cast(
    g: Grid,
    ox: int,
    oy: int,
    theta: int,
    fov: int,
    num_rays: int,
    max_j: int,
) -> Seq<RaySample> {
    spec_cast_upto(g, ox, oy, theta, fov, num_rays, max_j, num_rays)
}

/// Whether the sample at step `j` of a ray resolves to an in-bounds tile
/// of the given kind.
pub open spec fn sample_hits(g: Grid, ox: int, oy: int, c: int, s: int, j: int, t: Tile) -> bool {
    let wx = sample_coord(ox, g.cell_size as int, c, j);
    let wy = sample_coord(oy, g.cell_size as int, s, j);
    &&& tile_of(wx, g.cell_size as int, g.width as int) is Some
    &&& tile_of(wy, g.cell_size as int, g.height as int) is Some
    &&& g.tile_at(
        tile_of(wx, g.cell_size as int, g.width as int).unwrap(),
        tile_of(wy, g.cell_size as int, g.height as int).unwrap(),
    ) == t
}

/// A ray that meets an in-bounds Wall sample at step `j0` reports no
/// sample taken beyond step `j0`.
pub proof fn lemma_ray_stops_at_wall(
    g: Grid,
    ox: int,
    oy: int,
    c: int,
    s: int,
    ray: int,
    j: int,
    j0: int,
    max_j: int,
)
    requires
        0 <= j <= j0 < max_j <= 100_000_001,
        sample_hits(g, ox, oy, c, s, j0, Tile::Wall),
    ensures
        forall|k: int|
            0 <= k < spec_ray_samples(g, ox, oy, c, s, ray, j, max_j).len() ==> (
            #[trigger] spec_ray_samples(g, ox, oy, c, s, ray, j, max_j)[k]).step <= j0,
    decreases max_j - j,
{
    if j < j0 {
        lemma_ray_stops_at_wall(g, ox, oy, c, s, ray, j + 1, j0, max_j);
    }
}

/// A ray whose samples from step `j` on all land on in-bounds Floor tiles
/// reports every one of them, in step order.
pub proof fn lemma_ray_full_range(
    g: Grid,
    ox: int,
    oy: int,
    c: int,
    s: int,
    ray: int,
    j: int,
    max_j: int,
)
    requires
        0 <= j <= max_j <= 100_000_001,
        forall|k: int| j <= k < max_j ==> sample_hits(g, ox, oy, c, s, k, Tile::Floor),
    ensures
        spec_ray_samples(g, ox, oy, c, s, ray, j, max_j).len() == max_j - j,
        forall|k: int|
            0 <= k < max_j - j ==> (#[trigger] spec_ray_samples(
                g,
                ox,
                oy,
                c,
                s,
                ray,
                j,
                max_j,
            )[k]).step == j + k,
    decreases max_j - j,
{
    if j < max_j {
        assert(sample_hits(g, ox, oy, c, s, j, Tile::Floor));
        lemma_ray_full_range(g, ox, oy, c, s, ray, j + 1, max_j);
    }
}

/// The visibility caster is a function of its inputs alone: two sweeps
/// over identical origins, headings, fields of view, ranges and an
/// unchanged grid are the same sequence.
pub proof fn lemma_cast_deterministic(
    a: Seq<RaySample>,
    b: Seq<RaySample>,
    g: Grid,
    ox: int,
    oy: int,
    theta: int,
    fov: int,
    num_rays: int,
    max_j: int,
)
    requires
        a == spec_cast(g, ox, oy, theta, fov, num_rays, max_j),
        b == spec_cast(g, ox, oy, theta, fov, num_rays, max_j),
    ensures
        a == b,
{
}

/// The number of samples per ray for a sensor range: `range/cell + 1`.
pub open spec fn samples_per_ray(range: int, cell: int) -> int {
    range / cell + 1
}

/// Casts a visibility sweep of `num_rays` rays from `(ox, oy)` with heading
/// `theta`, field of view `fov` and the given sensor range over the grid.
pub fn cast(
    grid: &Grid,
    ox: i64,
    oy: i64,
    theta: i64,
    fov: i64,
    range: i64,
    num_rays: usize,
) -> (out: Vec<RaySample>)
    requires
        grid.wf(),
        -ANGLE_HALF < theta <= ANGLE_HALF,
        0 <= fov <= ANGLE_FULL,
        0 <= range <= crate::RANGE_LIMIT,
        -1_000_000_000 <= ox <= 1_000_000_000,
        -1_000_000_000 <= oy <= 1_000_000_000,
        1 <= num_rays <= 100_000,
    ensures
        out@ == spec_cast(
            *grid,
            ox as int,
            oy as int,
            theta as int,
            fov as int,
            num_rays as int,
            samples_per_ray(range as int, grid.cell_size as int),
        ),
{
    let max_j: i64 = div_nn(range, grid.cell_size) + 1;
    let ghost gmax = samples_per_ray(range as int, grid.cell_size as int);
    let mut out: Vec<RaySample> = Vec::new();
    let mut i: usize = 0;
    while i < num_rays
        invariant
            grid.wf(),
            -ANGLE_HALF < theta <= ANGLE_HALF,
            0 <= fov <= ANGLE_FULL,
            0 <= range <= crate::RANGE_LIMIT,
            -1_000_000_000 <= ox <= 1_000_000_000,
            -1_000_000_000 <= oy <= 1_000_000_000,
            1 <= num_rays <= 100_000,
            i <= num_rays,
            1 <= max_j <= 100_000_001,
            max_j == gmax,
            gmax == range as int / grid.cell_size as int + 1,
            out@ == spec_cast_upto(
                *grid,
                ox as int,
                oy as int,
                theta as int,
                fov as int,
                num_rays as int,
                gmax,
                i as int,
            ),
        decreases num_rays - i,
    {
        let (c, s) = ray_dir(theta, fov, num_rays, i);
        let ghost pre = out@;
        let mut j: i64 = 0;
        while j < max_j
            invariant_except_break
                grid.wf(),
                0 <= j <= max_j,
                1 <= max_j <= 100_000_001,
                0 <= range <= crate::RANGE_LIMIT,
                max_j == range as int / grid.cell_size as int + 1,
                -1_000_000_000 <= ox <= 1_000_000_000,
                -1_000_000_000 <= oy <= 1_000_000_000,
                -TRIG_ONE <= c <= TRIG_ONE,
                -TRIG_ONE <= s <= TRIG_ONE,
                i < num_rays <= 100_000,
                pre + spec_ray_samples(
                    *grid,
                    ox as int,
                    oy as int,
                    c as int,
                    s as int,
                    i as int,
                    0,
                    max_j as int,
                ) == out@ + spec_ray_samples(
                    *grid,
                    ox as int,
                    oy as int,
                    c as int,
                    s as int,
                    i as int,
                    j as int,
                    max_j as int,
                ),
            ensures
                out@ == pre + spec_ray_samples(
                    *grid,
                    ox as int,
                    oy as int,
                    c as int,
                    s as int,
                    i as int,
                    0,
                    max_j as int,
                ),
            decreases max_j - j,
        {
            proof {
                vstd::arithmetic::div_mod::lemma_fundamental_div_mod(
                    range as int,
                    grid.cell_size as int,
                );
                assert((j as int) * (grid.cell_size as int) <= (range as int
                    / grid.cell_size as int) * (grid.cell_size as int)) by (nonlinear_arith)
                    requires
                        0 <= j <= range as int / grid.cell_size as int,
                        0 < grid.cell_size,
                ;
            }
            let wx = sample_point(ox, grid.cell_size, c, j);
            let wy = sample_point(oy, grid.cell_size, s, j);
            let otx = tile_index(wx, grid.cell_size, grid.width);
            let oty = tile_index(wy, grid.cell_size, grid.height);
            let ghost before = out@;
            if otx.is_some() && oty.is_some() {
                let tx = otx.unwrap();
                let ty = oty.unwrap();
                let t = grid.tiles[ty][tx];
                let smp = RaySample { ray: i, step: j as usize, tile_x: tx, tile_y: ty, tile: t };
                out.push(smp);
                proof {
                    assert(spec_ray_samples(
                        *grid,
                        ox as int,
                        oy as int,
                        c as int,
                        s as int,
                        i as int,
                        j as int,
                        max_j as int,
                    ) == if t == Tile::Wall {
                        seq![smp]
                    } else {
                        seq![smp] + spec_ray_samples(
                            *grid,
                            ox as int,
                            oy as int,
                            c as int,
                            s as int,
                            i as int,
                            j + 1,
                            max_j as int,
                        )
                    });
                    assert(before + seq![smp] == out@);
                }
                if t == Tile::Wall {
                    proof {
                        assert(pre + spec_ray_samples(
                            *grid,
                            ox as int,
                            oy as int,
                            c as int,
                            s as int,
                            i as int,
                            0,
                            max_j as int,
                        ) == out@);
                    }
                    break;
                }
                proof {
                    assert(before + (seq![smp] + spec_ray_samples(
                        *grid,
                        ox as int,
                        oy as int,
                        c as int,
                        s as int,
                        i as int,
                        j + 1,
                        max_j as int,
                    )) == out@ + spec_ray_samples(
                        *grid,
                        ox as int,
                        oy as int,
                        c as int,
                        s as int,
                        i as int,
                        j + 1,
                        max_j as int,
                    ));
                }
            } else {
                proof {
                    assert(spec_ray_samples(
                        *grid,
                        ox as int,
                        oy as int,
                        c as int,
                        s as int,
                        i as int,
                        j as int,
                        max_j as int,
                    ) == spec_ray_samples(
                        *grid,
                        ox as int,
                        oy as int,
                        c as int,
                        s as int,
                        i as int,
                        j + 1,
                        max_j as int,
                    ));
                }
            }
            j += 1;
        }
        proof {
            assert(spec_cast_upto(
                *grid,
                ox as int,
                oy as int,
                theta as int,
                fov as int,
                num_rays as int,
                gmax,
                i + 1,
            ) == pre + spec_ray_samples(
                *grid,
                ox as int,
                oy as int,
                ray_cos(theta as int, fov as int, num_rays as int, i as int),
                ray_sin(theta as int, fov as int, num_rays as int, i as int),
                i as int,
                0,
                gmax,
            ));
        }
        i += 1;
    }
    out
}

} // verus!
