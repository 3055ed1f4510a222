use rozdungenlib::corridor::Corridor;
use rozdungenlib::door::Door;
use rozdungenlib::dungeon::{Dungeon, DungeonType};
use rozdungenlib::dungeonmap::{DungeonMap, DungeonTile};
use rozdungenlib::rng::DungeonRng;
use rozdungenlib::room::Room;

fn generated_dungeon(seed: u64) -> Dungeon {
    let mut rng = DungeonRng::new(seed);
    let mut d = Dungeon::new();
    d.generate(8, DungeonType::SeparateRooms, 25, 25, 5, 4, &mut rng)
        .unwrap();
    d.add_doors(&mut rng).unwrap();
    d.add_items(true, &mut rng);
    d
}

fn wall_at(map: &Vec<Vec<DungeonTile>>, w: isize, h: isize, x: isize, y: isize) -> bool {
    if x < 0 || y < 0 || x >= w || y >= h {
        return true;
    }
    matches!(
        map[x as usize][y as usize],
        DungeonTile::TileWall | DungeonTile::TileDummy
    )
}

#[test]
fn fresh_map_is_all_walls() {
    let m = DungeonMap::new(6, 4);
    for x in 0..6 {
        for y in 0..4 {
            assert_eq!(m.map[x][y], DungeonTile::TileWall);
        }
    }
}

#[test]
fn rasterization_is_reproducible_from_the_seed() {
    let d = generated_dungeon(77);

    let mut map_rng1 = DungeonRng::new(4242);
    let mut dm1 = DungeonMap::new(25, 25);
    let grid1 = dm1.create_map(&d, &mut map_rng1).clone();

    let mut map_rng2 = DungeonRng::new(4242);
    let mut dm2 = DungeonMap::new(25, 25);
    let grid2 = dm2.create_map(&d, &mut map_rng2).clone();

    assert_eq!(grid1, grid2);
}

#[test]
fn finished_map_holds_no_dummy_tile() {
    for seed in [1u64, 2, 3, 4] {
        let d = generated_dungeon(seed);
        let mut map_rng = DungeonRng::new(seed + 100);
        let mut dm = DungeonMap::new(25, 25);
        let grid = dm.create_map(&d, &mut map_rng);
        for column in grid {
            for tile in column {
                assert_ne!(*tile, DungeonTile::TileDummy);
            }
        }
    }
}

#[test]
fn remaining_doors_sit_in_a_valid_flank_pattern() {
    for seed in [5u64, 6, 7, 8, 9] {
        let d = generated_dungeon(seed);
        let mut map_rng = DungeonRng::new(seed);
        let mut dm = DungeonMap::new(25, 25);
        let grid = dm.create_map(&d, &mut map_rng);
        for x in 0..25isize {
            for y in 0..25isize {
                let t = grid[x as usize][y as usize];
                if t == DungeonTile::TileClosedDoor || t == DungeonTile::TileOpenDoor {
                    let vertical_flank = wall_at(grid, 25, 25, x, y - 1)
                        && wall_at(grid, 25, 25, x, y + 1)
                        && !wall_at(grid, 25, 25, x + 1, y)
                        && !wall_at(grid, 25, 25, x - 1, y);
                    let horizontal_flank = wall_at(grid, 25, 25, x - 1, y)
                        && wall_at(grid, 25, 25, x + 1, y)
                        && !wall_at(grid, 25, 25, x, y - 1)
                        && !wall_at(grid, 25, 25, x, y + 1);
                    assert!(vertical_flank || horizontal_flank);
                }
            }
        }
    }
}

#[test]
fn short_horizontal_run_never_gets_a_door() {
    // Two rooms whose gap gives a horizontal run of exactly two cells, a
    // door recorded at the from end, and rooms only two cells tall so the
    // vertical run can never reach door length either.
    let room0 = Room::new(0, 1, 1, 2, 2);
    let room1 = Room::new(1, 5, 1, 2, 2);
    let door = Door {
        id: 0,
        locked: false,
        open: false,
    };
    let d = Dungeon {
        rooms: vec![room0, room1],
        corridors: vec![Corridor::new(0, 0, 1, Some(door), Some(door))],
    };
    for seed in 0..20u64 {
        let mut map_rng = DungeonRng::new(seed);
        let mut dm = DungeonMap::new(10, 10);
        let grid = dm.create_map(&d, &mut map_rng);
        for column in grid {
            for tile in column {
                assert_ne!(*tile, DungeonTile::TileClosedDoor);
                assert_ne!(*tile, DungeonTile::TileOpenDoor);
            }
        }
    }
}

#[test]
fn long_run_rasterizes_a_recorded_door() {
    // Two rooms eight cells apart: the horizontal run is long enough, so
    // the from-side door is written over the second carved cell before the
    // pruning passes decide its fate; right after carving it must be there.
    // Observable from the outside: the grid of a layout with a door can
    // contain a door tile; over many seeds at least one survives pruning.
    let room0 = Room::new(0, 1, 1, 2, 6);
    let room1 = Room::new(1, 11, 1, 2, 6);
    let door = Door {
        id: 0,
        locked: false,
        open: false,
    };
    let d = Dungeon {
        rooms: vec![room0, room1],
        corridors: vec![Corridor::new(0, 0, 1, Some(door), Some(door))],
    };
    let mut seen_door = false;
    for seed in 0..30u64 {
        let mut map_rng = DungeonRng::new(seed);
        let mut dm = DungeonMap::new(16, 10);
        let grid = dm.create_map(&d, &mut map_rng);
        for column in grid {
            for tile in column {
                if *tile == DungeonTile::TileClosedDoor {
                    seen_door = true;
                }
            }
        }
    }
    assert!(seen_door);
}

#[test]
fn empty_layout_rasterizes_to_open_space() {
    // With nothing carved, every wall cell is surrounded by walls, so the
    // pruning pass opens the whole grid up.
    let d = Dungeon {
        rooms: vec![],
        corridors: vec![],
    };
    let mut map_rng = DungeonRng::new(0);
    let mut dm = DungeonMap::new(8, 5);
    let grid = dm.create_map(&d, &mut map_rng);
    for column in grid {
        for tile in column {
            assert_eq!(*tile, DungeonTile::TileEmpty);
        }
    }
}

#[test]
fn grid_mode_layout_rasterizes_cleanly() {
    let mut rng = DungeonRng::new(321);
    let mut d = Dungeon::new();
    d.generate(6, DungeonType::Grid, 40, 40, 8, 8, &mut rng).unwrap();
    d.add_doors(&mut rng).unwrap();
    d.add_items(true, &mut rng);

    let mut map_rng = DungeonRng::new(322);
    let mut dm = DungeonMap::new(40, 40);
    let grid = dm.create_map(&d, &mut map_rng);
    for x in 0..40isize {
        for y in 0..40isize {
            let t = grid[x as usize][y as usize];
            assert_ne!(t, DungeonTile::TileDummy);
            if t == DungeonTile::TileClosedDoor || t == DungeonTile::TileOpenDoor {
                let vertical_flank = wall_at(grid, 40, 40, x, y - 1)
                    && wall_at(grid, 40, 40, x, y + 1)
                    && !wall_at(grid, 40, 40, x + 1, y)
                    && !wall_at(grid, 40, 40, x - 1, y);
                let horizontal_flank = wall_at(grid, 40, 40, x - 1, y)
                    && wall_at(grid, 40, 40, x + 1, y)
                    && !wall_at(grid, 40, 40, x, y - 1)
                    && !wall_at(grid, 40, 40, x, y + 1);
                assert!(vertical_flank || horizontal_flank);
            }
        }
    }
}

#[test]
fn each_corridor_carves_an_open_horizontal_run() {
    // Two rooms eight cells apart: some row of the left room must carry a
    // fully open run from its right edge to the right room's near edge.
    let room0 = Room::new(0, 1, 1, 2, 6);
    let room1 = Room::new(1, 11, 1, 2, 6);
    let d = Dungeon {
        rooms: vec![room0, room1],
        corridors: vec![Corridor::new(0, 0, 1, None, None)],
    };
    for seed in 0..10u64 {
        let mut map_rng = DungeonRng::new(seed);
        let mut dm = DungeonMap::new(16, 10);
        let grid = dm.create_map(&d, &mut map_rng);
        let mut open_run_found = false;
        for row in 1..7usize {
            let mut open = true;
            for x in 3..=11usize {
                if wall_at(grid, 16, 10, x as isize, row as isize) {
                    open = false;
                }
            }
            if open {
                open_run_found = true;
            }
        }
        assert!(open_run_found);
    }
}

#[test]
fn carved_rooms_are_open_floor() {
    let d = generated_dungeon(31);
    let mut map_rng = DungeonRng::new(31);
    let mut dm = DungeonMap::new(25, 25);
    let grid = dm.create_map(&d, &mut map_rng);
    for i in 0..d.get_rooms_number() {
        let r = d.get_room(i).unwrap();
        for dx in 0..r.width as usize {
            for dy in 0..r.height as usize {
                let t = grid[r.x as usize + dx][r.y as usize + dy];
                assert!(
                    t != DungeonTile::TileWall && t != DungeonTile::TileDummy,
                    "wall matter inside a room"
                );
            }
        }
    }
}

#[test]
fn item_markers_land_inside_rooms() {
    let d = generated_dungeon(55);
    let mut map_rng = DungeonRng::new(56);
    let mut dm = DungeonMap::new(25, 25);
    let grid = dm.create_map(&d, &mut map_rng);
    for x in 0..25usize {
        for y in 0..25usize {
            let t = grid[x][y];
            if t == DungeonTile::TileChest || t == DungeonTile::TileKey {
                let mut inside = false;
                for i in 0..d.get_rooms_number() {
                    let r = d.get_room(i).unwrap();
                    if x >= r.x as usize
                        && x < (r.x + r.width) as usize
                        && y >= r.y as usize
                        && y < (r.y + r.height) as usize
                    {
                        inside = true;
                    }
                }
                assert!(inside, "item marker outside every room");
            }
        }
    }
}
