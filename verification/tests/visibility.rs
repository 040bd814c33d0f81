//! The visibility caster and the occupancy scan.
use gridslam::agent::Agent;
use gridslam::geom::ANGLE_QUARTER;
use gridslam::grid::Grid;
use gridslam::grid::Tile;
use gridslam::occupancy::SCell;
use gridslam::occupancy::SlamMap;
use gridslam::raycast::cast;
use gridslam::SimConfig;

/// A 9 by 9 grid with Floor in the middle 5 by 5 block, Wall around.
fn boxed_grid() -> Grid {
    let mut tiles = vec![vec![Tile::Wall; 9]; 9];
    for y in 2..7 {
        for x in 2..7 {
            tiles[y][x] = Tile::Floor;
        }
    }
    Grid { width: 9, height: 9, cell_size: 750, tiles, rooms: vec![] }
}

/// An all-Floor grid.
fn open_grid(w: usize, h: usize) -> Grid {
    Grid {
        width: w,
        height: h,
        cell_size: 750,
        tiles: vec![vec![Tile::Floor; w]; h],
        rooms: vec![],
    }
}

#[test]
fn unobstructed_ray_samples_full_range() {
    let grid = open_grid(16, 16);
    // One ray straight east from the middle of tile (2, 2), four cells of
    // range: five samples per ray, all in bounds and Floor.
    let out = cast(&grid, 1875, 1875, 0, 0, 3000, 1);
    assert_eq!(out.len(), 5);
    for (j, smp) in out.iter().enumerate() {
        assert_eq!(smp.ray, 0);
        assert_eq!(smp.step, j);
        assert_eq!(smp.tile_y, 2);
        assert_eq!(smp.tile_x, 2 + j);
        assert_eq!(smp.tile, Tile::Floor);
    }
}

#[test]
fn ray_stops_at_or_before_known_wall() {
    let grid = boxed_grid();
    // Straight east from the middle of tile (4, 4): tiles 5 and 6 are
    // Floor, tile 7 is Wall at distance 3; range reaches distance 4.
    let out = cast(&grid, 3375, 3375, 0, 0, 3000, 1);
    assert_eq!(out.len(), 4);
    assert_eq!(out[3].tile, Tile::Wall);
    assert_eq!(out[3].tile_x, 7);
    assert!(out.iter().all(|s| s.step <= 3));
}

#[test]
fn out_of_bounds_samples_are_skipped_without_ending_ray() {
    let grid = open_grid(3, 3);
    // Straight west from the middle of tile (1, 1): samples at steps 2..4
    // fall left of the grid and are skipped; the ray is not cut short.
    let out = cast(&grid, 1125, 1125, gridslam::geom::ANGLE_HALF, 0, 3000, 1);
    assert_eq!(out.len(), 2);
    assert_eq!(out[0].tile_x, 1);
    assert_eq!(out[1].tile_x, 0);
}

#[test]
fn casting_twice_gives_identical_samples() {
    let grid = boxed_grid();
    let a = cast(&grid, 3375, 3375, 1234, ANGLE_QUARTER, 3000, 60);
    let b = cast(&grid, 3375, 3375, 1234, ANGLE_QUARTER, 3000, 60);
    assert_eq!(a, b);
}

fn full_sweep_config() -> SimConfig {
    let mut cfg = SimConfig::standard();
    cfg.num_rays = 64;
    cfg
}

#[test]
fn collocated_scan_classifies_sampled_cells() {
    let grid = boxed_grid();
    let cfg = full_sweep_config();
    let mut sm = SlamMap::new();
    sm.init(6_750, 6_750, &cfg);
    assert_eq!(sm.width, 9);
    assert_eq!(sm.height, 9);
    let mut truth = Agent::new();
    truth.x = 3375;
    truth.y = 3375;
    truth.fov_angle = gridslam::geom::ANGLE_FULL;
    truth.fov_range = 3000;
    let belief = truth;
    sm.update_with_scan(&truth, &belief, &grid, &cfg);
    // Straight east: open tiles seen Free, the wall at (7, 4) Occupied.
    assert_eq!(sm.cells[4][4], SCell::Free);
    assert_eq!(sm.cells[4][5], SCell::Free);
    assert_eq!(sm.cells[4][6], SCell::Free);
    assert_eq!(sm.cells[4][7], SCell::Occupied);
    // Every touched cell matches the terrain; untouched cells are Unknown.
    for y in 0..9 {
        for x in 0..9 {
            let c = sm.cells[y][x];
            match grid.tiles[y][x] {
                Tile::Floor => assert!(c == SCell::Free || c == SCell::Unknown),
                Tile::Wall => assert!(c == SCell::Occupied || c == SCell::Unknown),
            }
        }
    }
    // A corner tile beyond every ray's range stays Unknown.
    assert_eq!(sm.cells[0][0], SCell::Unknown);
}

#[test]
fn scan_records_at_the_belief_frame() {
    let grid = boxed_grid();
    let cfg = full_sweep_config();
    let mut sm = SlamMap::new();
    sm.init(6_750, 6_750, &cfg);
    let mut truth = Agent::new();
    truth.x = 3375;
    truth.y = 3375;
    truth.fov_range = 3000;
    // The belief agent sits one cell north of the truth: observations land
    // one tile above where the terrain was sampled.
    let mut belief = truth;
    belief.y = truth.y - 750;
    sm.update_with_scan(&truth, &belief, &grid, &cfg);
    // The eastward wall at truth tile (7, 4) is recorded at belief tile (7, 3).
    assert_eq!(sm.cells[3][7], SCell::Occupied);
}

#[test]
fn fresh_map_is_all_unknown() {
    let cfg = SimConfig::standard();
    let mut sm = SlamMap::new();
    sm.init(15_000, 7_500, &cfg);
    assert_eq!(sm.width, 20);
    assert_eq!(sm.height, 10);
    for row in &sm.cells {
        for c in row {
            assert_eq!(*c, SCell::Unknown);
        }
    }
}
