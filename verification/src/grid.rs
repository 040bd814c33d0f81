//! The ground-truth terrain grid and its procedural generator.
//!
//! Generation carves `num_rooms` random rectangular rooms out of an all-Wall
//! grid and connects consecutive room centers with L-shaped corridors of
//! fixed width.  The contract of [`Grid::init`] characterizes the terrain
//! exactly: a tile is Floor if and only if some room or some corridor strip
//! covers it.
use vstd::prelude::*;
use crate::geom::clamped;
use crate::geom::clamp_i64;
use crate::geom::div_nn;
use crate::rng::Lcg;
use crate::SimConfig;

verus! {

/// One terrain cell.
#[derive(Clone, Copy, PartialEq, Eq, Structural, Debug)]
pub enum Tile {
    Floor,
    Wall,
}

/// The error of generating into a surface too small for the room sizes.
#[derive(Clone, Copy, PartialEq, Eq, Structural, Debug)]
pub enum GridError {
    DegenerateRoomBounds,
}

/// An axis-aligned room, in tile coordinates.
#[derive(Clone, Copy, PartialEq, Eq, Structural, Debug)]
pub struct Room {
    pub x: usize,
    pub y: usize,
    pub width: usize,
    pub height: usize,
}

impl Room {
    /// Whether the room covers tile `(tx, ty)`.
    pub open spec fn contains(self, tx: int, ty: int) -> bool {
        self.x <= tx < self.x + self.width && self.y <= ty < self.y + self.height
    }

    /// The room's center tile, with integer truncation.
    pub open spec fn center_spec(self) -> (int, int) {
        (self.x + self.width / 2, self.y + self.height / 2)
    }

    /// An empty room at the origin.
    pub fn new() -> (r: Room)
        ensures
            r.x == 0 && r.y == 0 && r.width == 0 && r.height == 0,
    {
        Room { x: 0, y: 0, width: 0, height: 0 }
    }

    /// The room's center tile.
    pub fn center(&self) -> (r: (usize, usize))
        requires
            self.x + self.width <= 1_000_000,
            self.y + self.height <= 1_000_000,
        ensures
            r.0 == self.center_spec().0,
            r.1 == self.center_spec().1,
    {
        (self.x + self.width / 2, self.y + self.height / 2)
    }
}

/// Whether a room with the given placement is admissible for the
/// configured size range on a `w` by `h` grid.
pub open spec fn room_ok(r: Room, cfg: SimConfig, w: int, h: int) -> bool {
    &&& cfg.room_w_min <= r.width < cfg.room_w_max
    &&& cfg.room_h_min <= r.height < cfg.room_h_max
    &&& r.x + r.width <= w
    &&& r.y + r.height <= h
}

/// Whether some room of `rs` covers tile `(tx, ty)`.
pub open spec fn covered_by_rooms(rs: Seq<Room>, tx: int, ty: int) -> bool {
    exists|j: int| 0 <= j < rs.len() && #[trigger] rs[j].contains(tx, ty)
}

/// The smaller of two values.
pub open spec fn spec_min(a: int, b: int) -> int {
    if a <= b {
        a
    } else {
        b
    }
}

/// The larger of two values.
pub open spec fn spec_max(a: int, b: int) -> int {
    if a >= b {
        a
    } else {
        b
    }
}

/// Whether tile `(tx, ty)` lies on the horizontal corridor strip carved for
/// the pair `(r1, r2)`: it spans the x range between the centers at the row
/// of `r1`'s center, `hw2` tiles to each side, clamped to the grid.
pub open spec fn in_h_corridor(r1: Room, r2: Room, hw2: int, h: int, tx: int, ty: int) -> bool {
    &&& spec_min(r1.center_spec().0, r2.center_spec().0) <= tx
        <= spec_max(r1.center_spec().0, r2.center_spec().0)
    &&& clamped(r1.center_spec().1 - hw2, 0, h - 1) <= ty
        <= clamped(r1.center_spec().1 + hw2, 0, h - 1)
}

/// Whether tile `(tx, ty)` lies on the vertical corridor strip carved for
/// the pair `(r1, r2)`: it spans the y range between the centers at the
/// column of `r2`'s center, `hw2` tiles to each side, clamped to the grid.
pub open spec fn in_v_corridor(r1: Room, r2: Room, hw2: int, w: int, tx: int, ty: int) -> bool {
    &&& spec_min(r1.center_spec().1, r2.center_spec().1) <= ty
        <= spec_max(r1.center_spec().1, r2.center_spec().1)
    &&& clamped(r2.center_spec().0 - hw2, 0, w - 1) <= tx
        <= clamped(r2.center_spec().0 + hw2, 0, w - 1)
}

/// Whether tile `(tx, ty)` lies on either strip of the corridor carved
/// between rooms `j - 1` and `j`.
pub open spec fn pair_corridor(
    rs: Seq<Room>,
    j: int,
    hw2: int,
    w: int,
    h: int,
    tx: int,
    ty: int,
) -> bool {
    in_h_corridor(rs[j - 1], rs[j], hw2, h, tx, ty) || in_v_corridor(rs[j - 1], rs[j], hw2, w, tx, ty)
}

/// Whether one of the corridors carved for the first `n` rooms covers
/// tile `(tx, ty)`.
pub open spec fn covered_by_corridors(
    rs: Seq<Room>,
    n: int,
    hw2: int,
    w: int,
    h: int,
    tx: int,
    ty: int,
) -> bool {
    exists|j: int| 1 <= j < n && #[trigger] pair_corridor(rs, j, hw2, w, h, tx, ty)
}

/// The ground-truth terrain: a rectangular grid of Floor and Wall tiles
/// with the list of generated rooms.
pub struct Grid {
    pub width: usize,
    pub height: usize,
    pub cell_size: i64,
    pub tiles: Vec<Vec<Tile>>,
    pub rooms: Vec<Room>,
}

impl Grid {
    /// Well-formedness: the tile array matches the recorded dimensions and
    /// the cell size is a positive world length.
    pub open spec fn wf(self) -> bool {
        &&& self.tiles@.len() == self.height
        &&& forall|i: int|
            0 <= i < self.tiles@.len() ==> (#[trigger] self.tiles@[i])@.len() == self.width
        &&& self.width <= 4000
        &&& self.height <= 4000
        &&& 1 <= self.cell_size <= 1_000_000
    }

    /// The tile at grid coordinates `(tx, ty)`.
    pub open spec fn tile_at(self, tx: int, ty: int) -> Tile {
        self.tiles@[ty]@[tx]
    }

    /// Whether `(tx, ty)` is a valid tile coordinate.
    pub open spec fn in_bounds(self, tx: int, ty: int) -> bool {
        0 <= tx < self.width && 0 <= ty < self.height
    }

    /// Whether the world point `(wx, wy)` resolves to an in-bounds Floor
    /// tile.  Points left of or above the grid, and points whose tile lies
    /// beyond it, are not walkable.
    pub open spec fn walkable_at(self, wx: int, wy: int) -> bool {
        &&& 0 <= wx && 0 <= wy
        &&& wx / (self.cell_size as int) < self.width
        &&& wy / (self.cell_size as int) < self.height
        &&& self.tile_at(wx / (self.cell_size as int), wy / (self.cell_size as int)) == Tile::Floor
    }

    /// An empty, ungenerated grid.
    pub fn new() -> (r: Grid)
        ensures
            r.width == 0 && r.height == 0 && r.cell_size == 0,
            r.tiles@.len() == 0 && r.rooms@.len() == 0,
    {
        Grid { width: 0, height: 0, cell_size: 0, tiles: Vec::new(), rooms: Vec::new() }
    }

    /// Whether the world point `(x, y)` lies on a Floor tile of the grid.
    pub fn is_walkable(&self, x: i64, y: i64) -> (r: bool)
        requires
            self.wf(),
        ensures
            r == self.walkable_at(x as int, y as int),
    {
        if x < 0 || y < 0 {
            return false;
        }
        let tx = div_nn(x, self.cell_size);
        let ty = div_nn(y, self.cell_size);
        if tx >= self.width as i64 || ty >= self.height as i64 {
            return false;
        }
        self.tiles[ty as usize][tx as usize] == Tile::Floor
    }

    /// Generates the terrain for a surface of `surface_w` by `surface_h`
    /// world subunits: an all-Wall grid of `surface / cell_size` tiles per
    /// axis, `num_rooms` random rooms carved to Floor, and an L-shaped
    /// corridor between the centers of each consecutive room pair.
    ///
    /// Fails, leaving the grid untouched, exactly when the surface is too
    /// small for the configured maximum room size; otherwise the resulting
    /// terrain is Floor on precisely the carved rooms and corridors.
    pub fn init(&mut self, surface_w: i64, surface_h: i64, cfg: &SimConfig, rng: &mut Lcg) -> (r:
        Result<(), GridError>)
        requires
            cfg.wf(),
            0 <= surface_w,
            0 <= surface_h,
            surface_w as int / cfg.cell_size as int <= 4000,
            surface_h as int / cfg.cell_size as int <= 4000,
        ensures
            r is Err <==> (surface_w as int / cfg.cell_size as int <= cfg.room_w_max
                || surface_h as int / cfg.cell_size as int <= cfg.room_h_max),
            r is Err ==> *final(self) == *old(self),
            r is Ok ==> final(self).wf(),
            r is Ok ==> final(self).width == surface_w as int / cfg.cell_size as int,
            r is Ok ==> final(self).height == surface_h as int / cfg.cell_size as int,
            r is Ok ==> final(self).cell_size == cfg.cell_size,
            r is Ok ==> final(self).rooms@.len() == cfg.num_rooms,
            r is Ok ==> forall|j: int|
                0 <= j < final(self).rooms@.len() ==> room_ok(
                    #[trigger] final(self).rooms@[j],
                    *cfg,
                    final(self).width as int,
                    final(self).height as int,
                ),
            r is Ok ==> forall|tx: int, ty: int|
                #![trigger final(self).tile_at(tx, ty)]
                final(self).in_bounds(tx, ty) ==> (final(self).tile_at(tx, ty) == Tile::Floor
                    <==> carved(
                    final(self).rooms@,
                    cfg.hall_width as int / 2,
                    final(self).width as int,
                    final(self).height as int,
                    tx,
                    ty,
                )),
    {
        let wcells_i = div_nn(surface_w, cfg.cell_size);
        let hcells_i = div_nn(surface_h, cfg.cell_size);
        if wcells_i <= cfg.room_w_max as i64 || hcells_i <= cfg.room_h_max as i64 {
            return Err(GridError::DegenerateRoomBounds);
        }
        let w = wcells_i as usize;
        let h = hcells_i as usize;

        let mut tiles: Vec<Vec<Tile>> = Vec::new();
        let mut y: usize = 0;
        while y < h
            invariant
                y <= h,
                h <= 4000,
                w <= 4000,
                tiles@.len() == y,
                forall|i: int| 0 <= i < tiles@.len() ==> (#[trigger] tiles@[i])@.len() == w,
                forall|tx: int, ty: int|
                    0 <= ty < tiles@.len() && 0 <= tx < w ==> #[trigger] tiles@[ty]@[tx]
                        == Tile::Wall,
            decreases h - y,
        {
            let mut row: Vec<Tile> = Vec::new();
            let mut x: usize = 0;
            while x < w
                invariant
                    x <= w,
                    row@.len() == x,
                    forall|j: int| 0 <= j < row@.len() ==> #[trigger] row@[j] == Tile::Wall,
                decreases w - x,
            {
                row.push(Tile::Wall);
                x += 1;
            }
            tiles.push(row);
            y += 1;
        }

        let mut rooms: Vec<Room> = Vec::new();
        let mut k: usize = 0;
        while k < cfg.num_rooms
            invariant
                k <= cfg.num_rooms,
                cfg.wf(),
                cfg.room_w_max < w <= 4000,
                cfg.room_h_max < h <= 4000,
                rooms@.len() == k,
                tiles@.len() == h,
                forall|i: int| 0 <= i < tiles@.len() ==> (#[trigger] tiles@[i])@.len() == w,
                forall|j: int|
                    0 <= j < rooms@.len() ==> room_ok(
                        #[trigger] rooms@[j],
                        *cfg,
                        w as int,
                        h as int,
                    ),
                forall|tx: int, ty: int|
                    #![trigger tiles@[ty]@[tx]]
                    0 <= ty < h && 0 <= tx < w ==> (tiles@[ty]@[tx] == Tile::Floor
                        <==> covered_by_rooms(rooms@, tx, ty)),
            decreases cfg.num_rooms - k,
        {
            let rw = cfg.room_w_min + rng.below((cfg.room_w_max - cfg.room_w_min) as u64) as usize;
            let rh = cfg.room_h_min + rng.below((cfg.room_h_max - cfg.room_h_min) as u64) as usize;
            let rx = rng.below((w - rw + 1) as u64) as usize;
            let ry = rng.below((h - rh + 1) as u64) as usize;
            let room = Room { x: rx, y: ry, width: rw, height: rh };
            let ghost rooms0 = rooms@;
            let ghost tiles0 = tiles@;
            carve_rect(&mut tiles, w, rx, ry, rw, rh);
            rooms.push(room);
            proof {
                assert forall|tx: int, ty: int|
                    0 <= ty < h && 0 <= tx < w implies (#[trigger] tiles@[ty]@[tx] == Tile::Floor
                    <==> covered_by_rooms(rooms@, tx, ty)) by {
                    lemma_covered_push(rooms0, room, tx, ty);
                    assert(tiles0[ty]@[tx] == Tile::Floor <==> covered_by_rooms(rooms0, tx, ty));
                }
            }
            k += 1;
        }

        let hw2: usize = cfg.hall_width / 2;
        let mut i: usize = 1;
        while i < rooms.len()
            invariant
                1 <= i,
                rooms@.len() >= 1 ==> i <= rooms@.len(),
                rooms@.len() == 0 ==> i == 1,
                cfg.wf(),
                hw2 == cfg.hall_width as int / 2,
                cfg.room_w_max < w <= 4000,
                cfg.room_h_max < h <= 4000,
                rooms@.len() == cfg.num_rooms,
                tiles@.len() == h,
                forall|idx: int| 0 <= idx < tiles@.len() ==> (#[trigger] tiles@[idx])@.len() == w,
                forall|j: int|
                    0 <= j < rooms@.len() ==> room_ok(
                        #[trigger] rooms@[j],
                        *cfg,
                        w as int,
                        h as int,
                    ),
                forall|tx: int, ty: int|
                    #![trigger tiles@[ty]@[tx]]
                    0 <= ty < h && 0 <= tx < w ==> (tiles@[ty]@[tx] == Tile::Floor
                        <==> covered_by_rooms(rooms@, tx, ty) || covered_by_corridors(
                        rooms@,
                        i as int,
                        hw2 as int,
                        w as int,
                        h as int,
                        tx,
                        ty,
                    )),
            decreases rooms@.len() - i,
        {
            let r1 = rooms[i - 1];
            let r2 = rooms[i];
            let (c1x, c1y) = r1.center();
            let (c2x, c2y) = r2.center();

            let xs = if c1x <= c2x {
                c1x
            } else {
                c2x
            };
            let xe = if c1x >= c2x {
                c1x
            } else {
                c2x
            };
            let ylo = clamp_i64(c1y as i64 - hw2 as i64, 0, (h - 1) as i64) as usize;
            let yhi = clamp_i64(c1y as i64 + hw2 as i64, 0, (h - 1) as i64) as usize;

            let ghost pre_h = tiles@;
            carve_rect(&mut tiles, w, xs, ylo, xe - xs + 1, yhi - ylo + 1);

            let ys = if c1y <= c2y {
                c1y
            } else {
                c2y
            };
            let ye = if c1y >= c2y {
                c1y
            } else {
                c2y
            };
            let xlo = clamp_i64(c2x as i64 - hw2 as i64, 0, (w - 1) as i64) as usize;
            let xhi = clamp_i64(c2x as i64 + hw2 as i64, 0, (w - 1) as i64) as usize;

            let ghost pre_v = tiles@;
            carve_rect(&mut tiles, w, xlo, ys, xhi - xlo + 1, ye - ys + 1);

            proof {
                assert forall|tx: int, ty: int|
                    0 <= ty < h && 0 <= tx < w implies (#[trigger] tiles@[ty]@[tx] == Tile::Floor
                    <==> covered_by_rooms(rooms@, tx, ty) || covered_by_corridors(
                    rooms@,
                    i + 1,
                    hw2 as int,
                    w as int,
                    h as int,
                    tx,
                    ty,
                )) by {
                    lemma_corridors_extend(rooms@, i + 1, hw2 as int, w as int, h as int, tx, ty);
                    assert(in_h_corridor(
                        rooms@[i - 1],
                        rooms@[i as int],
                        hw2 as int,
                        h as int,
                        tx,
                        ty,
                    ) <==> (xs <= tx <= xe && ylo <= ty <= yhi));
                    assert(in_v_corridor(
                        rooms@[i - 1],
                        rooms@[i as int],
                        hw2 as int,
                        w as int,
                        tx,
                        ty,
                    ) <==> (xlo <= tx <= xhi && ys <= ty <= ye));
                    assert(pre_h[ty]@[tx] == Tile::Floor <==> covered_by_rooms(rooms@, tx, ty)
                        || covered_by_corridors(
                        rooms@,
                        i as int,
                        hw2 as int,
                        w as int,
                        h as int,
                        tx,
                        ty,
                    ));
                    assert(pre_v[ty]@[tx] == Tile::Floor <==> (pre_h[ty]@[tx] == Tile::Floor || (
                    xs <= tx <= xe && ylo <= ty <= yhi)));
                    assert(tiles@[ty]@[tx] == Tile::Floor <==> (pre_v[ty]@[tx] == Tile::Floor || (
                    xlo <= tx <= xhi && ys <= ty <= ye)));
                }
            }
            i += 1;
        }

        proof {
            if rooms@.len() >= 1 {
                assert(i == rooms@.len());
            } else {
                assert(forall|tx: int, ty: int|
                    !covered_by_corridors(rooms@, 1, hw2 as int, w as int, h as int, tx, ty)
                        && !covered_by_corridors(
                        rooms@,
                        0,
                        hw2 as int,
                        w as int,
                        h as int,
                        tx,
                        ty,
                    ));
            }
        }
        self.width = w;
        self.height = h;
        self.cell_size = cfg.cell_size;
        self.tiles = tiles;
        self.rooms = rooms;
        Ok(())
    }
}

/// Whether generation carves tile `(tx, ty)` to Floor: some room of `rs`
/// or some corridor between consecutive rooms covers it.
pub open spec fn carved(rs: Seq<Room>, hw2: int, w: int, h: int, tx: int, ty: int) -> bool {
    covered_by_rooms(rs, tx, ty) || covered_by_corridors(rs, rs.len() as int, hw2, w, h, tx, ty)
}

/// Pushing a room extends room cover by exactly that room's rectangle.
proof fn lemma_covered_push(rs: Seq<Room>, r: Room, tx: int, ty: int)
    ensures
        covered_by_rooms(rs.push(r), tx, ty) <==> (covered_by_rooms(rs, tx, ty) || r.contains(
            tx,
            ty,
        )),
{
    if covered_by_rooms(rs, tx, ty) {
        let j = choose|j: int| 0 <= j < rs.len() && #[trigger] rs[j].contains(tx, ty);
        assert(rs.push(r)[j].contains(tx, ty));
    }
    if r.contains(tx, ty) {
        assert(rs.push(r)[rs.len() as int].contains(tx, ty));
    }
    if covered_by_rooms(rs.push(r), tx, ty) {
        let j = choose|j: int|
            0 <= j < rs.push(r).len() && #[trigger] rs.push(r)[j].contains(tx, ty);
        if j < rs.len() {
            assert(rs[j].contains(tx, ty));
        }
    }
}

/// Raising the corridor count by one extends corridor cover by exactly the
/// two strips of the newly connected pair.
proof fn lemma_corridors_extend(rs: Seq<Room>, n: int, hw2: int, w: int, h: int, tx: int, ty: int)
    requires
        2 <= n <= rs.len(),
    ensures
        covered_by_corridors(rs, n, hw2, w, h, tx, ty) <==> (covered_by_corridors(
            rs,
            n - 1,
            hw2,
            w,
            h,
            tx,
            ty,
        ) || pair_corridor(rs, n - 1, hw2, w, h, tx, ty)),
{
    if covered_by_corridors(rs, n - 1, hw2, w, h, tx, ty) {
        let j = choose|j: int| 1 <= j < n - 1 && #[trigger] pair_corridor(rs, j, hw2, w, h, tx, ty);
        assert(1 <= j < n && pair_corridor(rs, j, hw2, w, h, tx, ty));
    }
    if pair_corridor(rs, n - 1, hw2, w, h, tx, ty) {
        assert(1 <= n - 1 < n && pair_corridor(rs, n - 1, hw2, w, h, tx, ty));
    }
    if covered_by_corridors(rs, n, hw2, w, h, tx, ty) {
        let j = choose|j: int| 1 <= j < n && #[trigger] pair_corridor(rs, j, hw2, w, h, tx, ty);
        if j < n - 1 {
            assert(covered_by_corridors(rs, n - 1, hw2, w, h, tx, ty));
        }
    }
}

/// Sets every tile of the rectangle `[x0, x0+w) x [y0, y0+h)` to Floor and
/// leaves the rest of the grid unchanged.
fn carve_rect(tiles: &mut Vec<Vec<Tile>>, width: usize, x0: usize, y0: usize, w: usize, h: usize)
    requires
        forall|i: int|
            0 <= i < old(tiles)@.len() ==> (#[trigger] old(tiles)@[i])@.len() == width,
        x0 + w <= width,
        y0 + h <= old(tiles)@.len(),
        width <= 4000,
        old(tiles)@.len() <= 4000,
    ensures
        final(tiles)@.len() == old(tiles)@.len(),
        forall|i: int|
            0 <= i < final(tiles)@.len() ==> (#[trigger] final(tiles)@[i])@.len() == width,
        forall|tx: int, ty: int|
            0 <= ty < final(tiles)@.len() && 0 <= tx < width ==> #[trigger] final(tiles)@[ty]@[tx]
                == if x0 <= tx < x0 + w && y0 <= ty < y0 + h {
                Tile::Floor
            } else {
                old(tiles)@[ty]@[tx]
            },
{
    let mut yy = y0;
    while yy < y0 + h
        invariant
            y0 <= yy <= y0 + h,
            y0 + h <= tiles@.len(),
            x0 + w <= width,
            width <= 4000,
            tiles@.len() <= 4000,
            tiles@.len() == old(tiles)@.len(),
            forall|i: int| 0 <= i < tiles@.len() ==> (#[trigger] tiles@[i])@.len() == width,
            forall|tx: int, ty: int|
                0 <= ty < tiles@.len() && 0 <= tx < width ==> #[trigger] tiles@[ty]@[tx] == if x0
                    <= tx < x0 + w && y0 <= ty < yy {
                    Tile::Floor
                } else {
                    old(tiles)@[ty]@[tx]
                },
        decreases y0 + h - yy,
    {
        let mut xx = x0;
        while xx < x0 + w
            invariant
                x0 <= xx <= x0 + w,
                y0 <= yy < y0 + h,
                y0 + h <= tiles@.len(),
                x0 + w <= width,
                width <= 4000,
                tiles@.len() <= 4000,
                tiles@.len() == old(tiles)@.len(),
                forall|i: int| 0 <= i < tiles@.len() ==> (#[trigger] tiles@[i])@.len() == width,
                forall|tx: int, ty: int|
                    0 <= ty < tiles@.len() && 0 <= tx < width ==> #[trigger] tiles@[ty]@[tx]
                        == if (x0 <= tx < x0 + w && y0 <= ty < yy) || (ty == yy && x0 <= tx < xx) {
                        Tile::Floor
                    } else {
                        old(tiles)@[ty]@[tx]
                    },
            decreases x0 + w - xx,
        {
            tiles[yy][xx] = Tile::Floor;
            xx += 1;
        }
        yy += 1;
    }
}

} // verus!
