//! Procedural generation of the terrain grid.
use gridslam::grid::Grid;
use gridslam::grid::GridError;
use gridslam::grid::Room;
use gridslam::grid::Tile;
use gridslam::rng::Lcg;
use gridslam::SimConfig;

fn small_config() -> SimConfig {
    let mut cfg = SimConfig::standard();
    cfg.num_rooms = 6;
    cfg
}

#[test]
fn dimensions_are_surface_over_cell_size() {
    let cfg = SimConfig::standard();
    let mut grid = Grid::new();
    let mut rng = Lcg::seeded(42);
    // 60000 subunits = 600 pixels of 7.5-pixel cells.
    let r = grid.init(60_000, 45_000, &cfg, &mut rng);
    assert!(r.is_ok());
    assert_eq!(grid.width, 80);
    assert_eq!(grid.height, 60);
    assert_eq!(grid.tiles.len(), 60);
    assert_eq!(grid.tiles[0].len(), 80);
    assert_eq!(grid.rooms.len(), cfg.num_rooms);
}

#[test]
fn room_interiors_are_floor() {
    let cfg = small_config();
    let mut grid = Grid::new();
    let mut rng = Lcg::seeded(7);
    grid.init(60_000, 60_000, &cfg, &mut rng).unwrap();
    for room in &grid.rooms {
        assert!(room.width >= cfg.room_w_min && room.width < cfg.room_w_max);
        assert!(room.height >= cfg.room_h_min && room.height < cfg.room_h_max);
        assert!(room.x + room.width <= grid.width);
        assert!(room.y + room.height <= grid.height);
        for y in room.y..room.y + room.height {
            for x in room.x..room.x + room.width {
                assert_eq!(grid.tiles[y][x], Tile::Floor);
            }
        }
    }
}

#[test]
fn corridors_between_consecutive_rooms_are_floor() {
    let cfg = small_config();
    let mut grid = Grid::new();
    let mut rng = Lcg::seeded(1234);
    grid.init(60_000, 60_000, &cfg, &mut rng).unwrap();
    let hw2 = cfg.hall_width / 2;
    for i in 1..grid.rooms.len() {
        let c1 = grid.rooms[i - 1].center();
        let c2 = grid.rooms[i].center();
        let (xs, xe) = (c1.0.min(c2.0), c1.0.max(c2.0));
        let ylo = (c1.1 as i64 - hw2 as i64).clamp(0, grid.height as i64 - 1) as usize;
        let yhi = (c1.1 as i64 + hw2 as i64).clamp(0, grid.height as i64 - 1) as usize;
        for x in xs..=xe {
            for y in ylo..=yhi {
                assert_eq!(grid.tiles[y][x], Tile::Floor);
            }
        }
        let (ys, ye) = (c1.1.min(c2.1), c1.1.max(c2.1));
        let xlo = (c2.0 as i64 - hw2 as i64).clamp(0, grid.width as i64 - 1) as usize;
        let xhi = (c2.0 as i64 + hw2 as i64).clamp(0, grid.width as i64 - 1) as usize;
        for y in ys..=ye {
            for x in xlo..=xhi {
                assert_eq!(grid.tiles[y][x], Tile::Floor);
            }
        }
    }
}

#[test]
fn generation_is_deterministic_per_seed() {
    let cfg = small_config();
    let mut g1 = Grid::new();
    let mut g2 = Grid::new();
    let mut r1 = Lcg::seeded(99);
    let mut r2 = Lcg::seeded(99);
    g1.init(30_000, 30_000, &cfg, &mut r1).unwrap();
    g2.init(30_000, 30_000, &cfg, &mut r2).unwrap();
    assert_eq!(g1.tiles, g2.tiles);
    assert_eq!(g1.rooms, g2.rooms);
}

#[test]
fn degenerate_surface_is_rejected() {
    let cfg = SimConfig::standard();
    let mut grid = Grid::new();
    let mut rng = Lcg::seeded(1);
    // 4500 subunits give 6 cells per axis: not above the room maximum of 6.
    let r = grid.init(4_500, 60_000, &cfg, &mut rng);
    assert_eq!(r, Err(GridError::DegenerateRoomBounds));
    // The grid is untouched on failure.
    assert_eq!(grid.width, 0);
    let r2 = grid.init(60_000, 4_500, &cfg, &mut rng);
    assert_eq!(r2, Err(GridError::DegenerateRoomBounds));
    let r3 = grid.init(60_000, 60_000, &cfg, &mut rng);
    assert!(r3.is_ok());
}

#[test]
fn is_walkable_resolves_world_points() {
    let grid = Grid {
        width: 2,
        height: 1,
        cell_size: 750,
        tiles: vec![vec![Tile::Floor, Tile::Wall]],
        rooms: vec![],
    };
    assert!(grid.is_walkable(0, 0));
    assert!(grid.is_walkable(749, 749));
    assert!(!grid.is_walkable(750, 0));
    assert!(!grid.is_walkable(-1, 0));
    assert!(!grid.is_walkable(0, 750));
}

#[test]
fn room_center_truncates() {
    let room = Room { x: 3, y: 5, width: 4, height: 3 };
    assert_eq!(room.center(), (5, 6));
    let fresh = Room::new();
    assert_eq!(fresh.center(), (0, 0));
}
