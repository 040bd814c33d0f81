//! Agent kinematics, noise, spawning and pose correction.
use gridslam::agent::score_pose_against_map;
use gridslam::agent::Agent;
use gridslam::geom::ANGLE_FULL;
use gridslam::geom::ANGLE_HALF;
use gridslam::grid::Grid;
use gridslam::grid::Room;
use gridslam::grid::Tile;
use gridslam::occupancy::SCell;
use gridslam::occupancy::SlamMap;
use gridslam::rng::Lcg;
use gridslam::SimConfig;

/// A 9 by 9 grid with Floor in the middle 5 by 5 block, Wall around.
fn boxed_grid() -> Grid {
    let mut tiles = vec![vec![Tile::Wall; 9]; 9];
    for y in 2..7 {
        for x in 2..7 {
            tiles[y][x] = Tile::Floor;
        }
    }
    Grid { width: 9, height: 9, cell_size: 750, tiles, rooms: vec![] }
}

/// A 3 by 3 grid whose center tile alone is Floor.
fn cell_grid() -> Grid {
    let mut tiles = vec![vec![Tile::Wall; 3]; 3];
    tiles[1][1] = Tile::Floor;
    Grid { width: 3, height: 3, cell_size: 750, tiles, rooms: vec![] }
}

#[test]
fn copies_and_noise() {
    let mut a = Agent::new();
    let mut b = Agent::new();
    b.x = 100;
    b.y = 200;
    b.theta = 300;
    a.copy_pos(&b);
    assert_eq!((a.x, a.y, a.theta), (100, 200, 300));
    let mut c = Agent::new();
    c.copy_theta(&b);
    assert_eq!(c.theta, 300);
    assert_eq!(c.x, 0);
    a.add_noise(-30, 40);
    assert_eq!((a.x, a.y), (70, 240));
    assert_eq!(a.theta, 300);
}

#[test]
fn spawn_uses_first_room_or_origin() {
    let cfg = SimConfig::standard();
    let mut grid = boxed_grid();
    let mut agent = Agent::new();
    agent.theta = 777;
    agent.spawn(&grid, &cfg);
    assert_eq!((agent.x, agent.y, agent.theta), (0, 0, 0));
    grid.rooms = vec![Room { x: 2, y: 3, width: 3, height: 2 }];
    agent.spawn(&grid, &cfg);
    // x = 2 * 750 + 3 pixels + the radius, in subunits.
    assert_eq!(agent.x, 2 * 750 + 300 + 500);
    assert_eq!(agent.y, 3 * 750 + 200 + 500);
    assert_eq!(agent.theta, 0);
}

#[test]
fn turns_stay_in_signed_half_turn() {
    let cfg = SimConfig::standard();
    let grid = boxed_grid();
    let mut agent = Agent::new();
    agent.x = 3375;
    agent.y = 3375;
    for i in 0..500 {
        let left = i % 3 == 0;
        let right = i % 7 < 3;
        agent.update(
            left, right, false, false, false, 0, 0, true, 6_750, 6_750, &grid, &cfg,
        );
        assert!(-ANGLE_HALF < agent.theta && agent.theta <= ANGLE_HALF);
    }
}

#[test]
fn boxed_agent_never_enters_a_wall() {
    let cfg = SimConfig::standard();
    // A 5 by 5 grid whose middle 3 by 3 block is Floor: walls on all sides.
    let mut tiles = vec![vec![Tile::Wall; 5]; 5];
    for y in 1..4 {
        for x in 1..4 {
            tiles[y][x] = Tile::Floor;
        }
    }
    let grid = Grid { width: 5, height: 5, cell_size: 750, tiles, rooms: vec![] };
    let mut agent = Agent::new();
    agent.x = 1875;
    agent.y = 1875;
    for i in 0..200 {
        let turn = i % 5 == 0;
        agent.update(
            turn, false, true, false, false, 0, 0, true, 3_750, 3_750, &grid, &cfg,
        );
        // The agent's bounding points never land in a Wall tile.
        assert!(grid.is_walkable(agent.x - cfg.radius, agent.y - cfg.radius));
        assert!(grid.is_walkable(agent.x + cfg.radius, agent.y + cfg.radius));
    }
}

#[test]
fn open_floor_forward_moves_and_reports() {
    let cfg = SimConfig::standard();
    let grid = boxed_grid();
    let mut agent = Agent::new();
    agent.x = 3375;
    agent.y = 3375;
    let moved = agent.update(
        false, false, true, false, false, 0, 0, true, 6_750, 6_750, &grid, &cfg,
    );
    assert!(moved);
    // One speed step straight east: 0.8 pixels = 80 subunits.
    assert_eq!(agent.x, 3455);
    assert_eq!(agent.y, 3375);
}

#[test]
fn rejected_move_keeps_position_but_reports_attempt() {
    let cfg = SimConfig::standard();
    let grid = cell_grid();
    let mut agent = Agent::new();
    agent.x = 1125;
    agent.y = 1125;
    // Forward into the eastern wall, repeatedly: the translation is
    // attempted every step but never applied.
    for _ in 0..20 {
        let moved = agent.update(
            false, false, true, false, false, 0, 0, true, 2_250, 2_250, &grid, &cfg,
        );
        assert!(moved);
        assert_eq!((agent.x, agent.y), (1125, 1125));
    }
}

#[test]
fn unchecked_update_clamps_to_surface() {
    let cfg = SimConfig::standard();
    let grid = boxed_grid();
    let mut agent = Agent::new();
    agent.x = 600;
    agent.y = 600;
    agent.theta = ANGLE_HALF;  // facing west
    for _ in 0..20 {
        agent.update(
            false, false, true, false, false, 0, 0, false, 6_750, 6_750, &grid, &cfg,
        );
    }
    // 20 steps of 80 subunits west would pass 0; the clamp holds the
    // position at the radius.
    assert_eq!(agent.x, cfg.radius);
    assert_eq!(agent.y, 600);
}

/// The belief map fully matching a grid's terrain.
fn known_map(grid: &Grid) -> SlamMap {
    let mut cells = vec![vec![SCell::Unknown; grid.width]; grid.height];
    for y in 0..grid.height {
        for x in 0..grid.width {
            cells[y][x] = match grid.tiles[y][x] {
                Tile::Floor => SCell::Free,
                Tile::Wall => SCell::Occupied,
            };
        }
    }
    SlamMap { width: grid.width, height: grid.height, cells }
}

/// A configuration whose localization step is one whole cell, with a
/// full-circle sweep.
fn loc_config() -> SimConfig {
    let mut cfg = SimConfig::standard();
    cfg.num_rays = 64;
    cfg.loc_step = 750;
    cfg
}

#[test]
fn exact_score_of_one_ray() {
    let mut cfg = SimConfig::standard();
    cfg.num_rays = 1;
    let grid = Grid {
        width: 2,
        height: 1,
        cell_size: 750,
        tiles: vec![vec![Tile::Floor, Tile::Wall]],
        rooms: vec![],
    };
    let sm = SlamMap {
        width: 2,
        height: 1,
        cells: vec![vec![SCell::Free, SCell::Occupied]],
    };
    let mut truth = Agent::new();
    truth.x = 375;
    truth.y = 375;
    truth.fov_angle = 0;
    truth.fov_range = 750;
    let belief = truth;
    // Two samples straight east: matched Floor/Free earns 10, then the
    // matched Wall/Occupied earns 30 and ends the ray.
    assert_eq!(score_pose_against_map(&truth, &belief, &sm, &grid, &cfg), 40);
}

#[test]
fn localize_moves_offset_pose_toward_truth() {
    let cfg = loc_config();
    let grid = boxed_grid();
    let sm = known_map(&grid);
    let mut truth = Agent::new();
    truth.x = 3375;
    truth.y = 3375;
    truth.fov_angle = ANGLE_FULL;
    truth.fov_range = 3000;
    // The belief pose sits exactly one candidate step east of the truth.
    let mut belief = truth;
    belief.x = truth.x + cfg.loc_step;
    let before = (belief.x - truth.x).abs();
    let theta_before = belief.theta;
    belief.localize(&truth, &sm, &grid, &cfg);
    let after = (belief.x - truth.x).abs();
    assert!(after < before);
    assert_eq!(belief.theta, theta_before);
    assert_eq!(belief.y, truth.y);
    // The blend moves a fifth of the way onto the winning candidate.
    assert_eq!(belief.x, truth.x + 4 * cfg.loc_step / 5);
}

#[test]
fn localize_never_touches_heading() {
    let cfg = loc_config();
    let grid = boxed_grid();
    let sm = known_map(&grid);
    let mut truth = Agent::new();
    truth.x = 3375;
    truth.y = 3375;
    let mut belief = truth;
    belief.theta = -4321;
    belief.localize(&truth, &sm, &grid, &cfg);
    assert_eq!(belief.theta, -4321);
}

#[test]
fn rng_is_deterministic_and_bounded() {
    let mut a = Lcg::seeded(5);
    let mut b = Lcg::seeded(5);
    for _ in 0..100 {
        let x = a.below(37);
        let y = b.below(37);
        assert_eq!(x, y);
        assert!(x < 37);
    }
    let mut c = Lcg::seeded(6);
    let mut any_different = false;
    let mut d = Lcg::seeded(5);
    for _ in 0..10 {
        if c.below(1000) != d.below(1000) {
            any_different = true;
        }
    }
    assert!(any_different);
}

#[test]
fn standard_config_has_the_documented_constants() {
    let cfg = SimConfig::standard();
    assert_eq!(cfg.cell_size, 750);
    assert_eq!(cfg.speed, 80);
    assert_eq!(cfg.radius, 500);
    assert_eq!(cfg.num_rays, 180);
    assert_eq!(cfg.num_rooms, 15);
    assert_eq!(cfg.hall_width, 3);
    assert_eq!(cfg.loc_margin, 50);
    let agent = Agent::new();
    assert_eq!(agent.fov_angle, gridslam::geom::ANGLE_QUARTER);
    assert_eq!(agent.fov_range, 4 * cfg.cell_size);
}
