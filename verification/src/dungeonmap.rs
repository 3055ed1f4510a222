use vstd::prelude::*;
use crate::corridor::Corridor;
use crate::door::Door;
use crate::dungeon::{total_items, Dungeon};
use crate::item::ItemType;
use crate::rng::DungeonRng;
use crate::room::{room_covers, rooms_overlap, some_room_covers, Room};

verus! {

/// The rasterized unit of the output grid.
#[derive(Clone, Copy, PartialEq, Eq, Structural, Debug)]
pub enum DungeonTile {
    TileEmpty,
    TileWall,
    /// Transient marker of the wall-pruning pass; never present in a
    /// finished grid.
    TileDummy,
    TileClosedDoor,
    TileOpenDoor,
    TileChest,
    TileKey,
}

/// Walls and the transient pruning marker both count as wall matter for
/// the neighborhood tests.
pub open spec fn is_wallish(t: DungeonTile) -> bool {
    t == DungeonTile::TileWall || t == DungeonTile::TileDummy
}

/// A door cell, open or closed.
pub open spec fn is_door_tile(t: DungeonTile) -> bool {
    t == DungeonTile::TileClosedDoor || t == DungeonTile::TileOpenDoor
}

/// The tile a door is rasterized to, by its open flag.
pub open spec fn door_tile_for(d: Door) -> DungeonTile {
    if d.open {
        DungeonTile::TileOpenDoor
    } else {
        DungeonTile::TileClosedDoor
    }
}

/// A cell holding a dropped item's marker.
pub open spec fn is_marker(t: DungeonTile) -> bool {
    t == DungeonTile::TileChest || t == DungeonTile::TileKey
}

/// A marker of this kind can stand for one of the room's items: a key
/// marker for a universal key, a chest marker for any item of another
/// kind.
pub open spec fn marker_matches_room(r: Room, t: DungeonTile) -> bool {
    (t == DungeonTile::TileKey && exists|j: int|
        0 <= j < r.items@.len() && (#[trigger] r.items@[j]).item_type == ItemType::Key(0)) || (t
        == DungeonTile::TileChest && exists|j: int|
        0 <= j < r.items@.len() && (#[trigger] r.items@[j]).item_type != ItemType::Key(0))
}

/// The marker tile `t` at cell `(x, y)` is accounted for: it lies inside a
/// room that holds an item of the matching kind.
pub open spec fn marker_accounted(d: Dungeon, t: DungeonTile, x: int, y: int) -> bool {
    exists|i: int|
        0 <= i < d.rooms@.len() && #[trigger] room_covers(d.rooms@[i], x, y)
            && marker_matches_room(d.rooms@[i], t)
}

/// Grid dimensions stay below this bound so the signed coordinates of the
/// neighbor tests cannot overflow on any machine.
pub open spec fn dim_ok(d: int) -> bool {
    d <= 0x1000_0000
}

/// A dense 2-D tile grid addressed `[x][y]`, `x` in `[0, map_width)`,
/// `y` in `[0, map_height)`.
pub struct DungeonMap {
    pub map_width: usize,
    pub map_height: usize,
    pub map: Vec<Vec<DungeonTile>>,
}

impl DungeonMap {
    /// The grid really is `map_width` columns of `map_height` tiles.
    pub open spec fn wf(self) -> bool {
        self.map@.len() == self.map_width && (forall|x: int|
            0 <= x < self.map@.len() ==> (#[trigger] self.map@[x])@.len() == self.map_height)
            && dim_ok(self.map_width as int) && dim_ok(self.map_height as int)
    }

    /// The tile at column `x`, row `y`.
    pub open spec fn tile(self, x: int, y: int) -> DungeonTile {
        self.map@[x]@[y]
    }

    pub open spec fn in_bounds(self, x: int, y: int) -> bool {
        0 <= x < self.map_width && 0 <= y < self.map_height
    }

    /// The bounds test of the neighbor probes: a coordinate outside the
    /// grid counts as a wall.
    pub open spec fn wall_at(self, x: int, y: int) -> bool {
        !self.in_bounds(x, y) || is_wallish(self.tile(x, y))
    }

    /// The cell and all eight neighbors are wall matter (cells beyond the
    /// border included).
    pub open spec fn walls_around(self, x: int, y: int) -> bool {
        self.wall_at(x, y) && self.wall_at(x - 1, y) && self.wall_at(x + 1, y) && self.wall_at(
            x,
            y + 1,
        ) && self.wall_at(x, y - 1) && self.wall_at(x - 1, y - 1) && self.wall_at(x + 1, y + 1)
            && self.wall_at(x - 1, y + 1) && self.wall_at(x + 1, y - 1)
    }

    /// A door cell is valid when it is flanked by walls above and below
    /// with open sides, or by walls left and right with open top and
    /// bottom.
    pub open spec fn valid_door_position(self, x: int, y: int) -> bool {
        (self.wall_at(x, y - 1) && self.wall_at(x, y + 1) && !self.wall_at(x + 1, y)
            && !self.wall_at(x - 1, y)) || (self.wall_at(x - 1, y) && self.wall_at(x + 1, y)
            && !self.wall_at(x, y - 1) && !self.wall_at(x, y + 1))
    }

    /// The grid holds no item marker anywhere.
    pub open spec fn no_markers(self) -> bool {
        forall|a: int, b: int| self.in_bounds(a, b) ==> !is_marker(#[trigger] self.tile(a, b))
    }

    /// Some cell of the room's interior holds an item marker.
    pub open spec fn room_has_marker(self, r: Room) -> bool {
        exists|a: int, b: int|
            self.in_bounds(a, b) && #[trigger] room_covers(r, a, b) && is_marker(self.tile(a, b))
    }

    /// Both grids have the same dimensions and agree, cell by cell, on
    /// what is wall matter.
    pub open spec fn same_wallishness(self, other: DungeonMap) -> bool {
        self.map_width == other.map_width && self.map_height == other.map_height && (forall|
            x: int,
            y: int,
        |
            self.in_bounds(x, y) ==> is_wallish(#[trigger] self.tile(x, y)) == is_wallish(
                other.tile(x, y),
            ))
    }

    pub fn new(width: usize, height: usize) -> (m: Self)
        requires
            dim_ok(width as int),
            dim_ok(height as int),
        ensures
            m.wf(),
            m.map_width == width,
            m.map_height == height,
            forall|x: int, y: int| m.in_bounds(x, y) ==> m.tile(x, y) == DungeonTile::TileWall,
    {
        let mut grid: Vec<Vec<DungeonTile>> = Vec::new();
        let mut x: usize = 0;
        while x < width
            invariant
                x <= width,
                grid@.len() == x,
                forall|i: int| 0 <= i < x ==> (#[trigger] grid@[i])@.len() == height,
                forall|i: int, j: int| 0 <= i < x && 0 <= j < height
                    ==> #[trigger] grid@[i]@[j] == DungeonTile::TileWall,
            decreases width - x,
        {
            let mut column: Vec<DungeonTile> = Vec::new();
            let mut y: usize = 0;
            while y < height
                invariant
                    y <= height,
                    column@.len() == y,
                    forall|j: int| 0 <= j < y ==> column@[j] == DungeonTile::TileWall,
                decreases height - y,
            {
                column.push(DungeonTile::TileWall);
                y += 1;
            }
            grid.push(column);
            x += 1;
        }
        Self { map_width: width, map_height: height, map: grid }
    }

    /// Writes one tile, leaving every other cell unchanged.
    fn set_tile(&mut self, x: usize, y: usize, t: DungeonTile)
        requires
            old(self).wf(),
            x < old(self).map_width,
            y < old(self).map_height,
        ensures
            final(self).wf(),
            final(self).map_width == old(self).map_width,
            final(self).map_height == old(self).map_height,
            final(self).tile(x as int, y as int) == t,
            forall|a: int, b: int|
                final(self).in_bounds(a, b) && !(a == x && b == y) ==> final(self).tile(a, b)
                    == old(self).tile(a, b),
    {
        let column = &mut self.map[x];
        column[y] = t;
    }

    /// Reads the tile at a signed coordinate; out-of-range coordinates
    /// yield nothing.
    fn get_field(&self, x: isize, y: isize) -> (r: Option<DungeonTile>)
        requires
            self.wf(),
        ensures
            r == if self.in_bounds(x as int, y as int) {
                Some(self.tile(x as int, y as int))
            } else {
                None::<DungeonTile>
            },
    {
        if x < 0 || y < 0 || x >= self.map_width as isize || y >= self.map_height as isize {
            return None;
        }
        Some(self.map[x as usize][y as usize])
    }

    /// Whether the cell at a signed coordinate counts as wall matter;
    /// coordinates beyond the border do.
    fn has_wall(&self, x: isize, y: isize) -> (r: bool)
        requires
            self.wf(),
        ensures
            r == self.wall_at(x as int, y as int),
    {
        match self.get_field(x, y) {
            Some(t) => t == DungeonTile::TileWall || t == DungeonTile::TileDummy,
            None => true,
        }
    }

    /// Whether the cell and all eight neighbors count as wall matter.
    fn has_walls_around(&self, x: isize, y: isize) -> (r: bool)
        requires
            self.wf(),
            -0x1000_0000 <= x <= 0x1000_0000,
            -0x1000_0000 <= y <= 0x1000_0000,
        ensures
            r == self.walls_around(x as int, y as int),
    {
        self.has_wall(x, y) && self.has_wall(x - 1, y) && self.has_wall(x + 1, y) && self.has_wall(
            x,
            y + 1,
        ) && self.has_wall(x, y - 1) && self.has_wall(x - 1, y - 1) && self.has_wall(x + 1, y + 1)
            && self.has_wall(x - 1, y + 1) && self.has_wall(x + 1, y - 1)
    }

    /// Carves one room's cells to empty floor.
    fn carve_room(&mut self, room: &Room)
        requires
            old(self).wf(),
            room.x + room.width <= old(self).map_width,
            room.y + room.height <= old(self).map_height,
        ensures
            final(self).wf(),
            final(self).map_width == old(self).map_width,
            final(self).map_height == old(self).map_height,
            forall|a: int, b: int|
                final(self).in_bounds(a, b) ==> #[trigger] final(self).tile(a, b) == if room_covers(
                    *room,
                    a,
                    b,
                ) {
                    DungeonTile::TileEmpty
                } else {
                    old(self).tile(a, b)
                },
    {
        let width = room.width as usize;
        let height = room.height as usize;
        let mut y: usize = 0;
        while y < height
            invariant
                old(self).wf(),
                self.wf(),
                self.map_width == old(self).map_width,
                self.map_height == old(self).map_height,
                y <= height,
                width == room.width,
                height == room.height,
                room.x + room.width <= self.map_width,
                room.y + room.height <= self.map_height,
                forall|a: int, b: int|
                    self.in_bounds(a, b) ==> #[trigger] self.tile(a, b) == if room_covers(
                        *room,
                        a,
                        b,
                    ) && b < room.y + y {
                        DungeonTile::TileEmpty
                    } else {
                        old(self).tile(a, b)
                    },
            decreases height - y,
        {
            let ys = y + room.y as usize;
            let mut x: usize = 0;
            while x < width
                invariant
                    old(self).wf(),
                    self.wf(),
                    self.map_width == old(self).map_width,
                    self.map_height == old(self).map_height,
                    y < height,
                    x <= width,
                    ys == room.y + y,
                    width == room.width,
                    height == room.height,
                    room.x + room.width <= self.map_width,
                    room.y + room.height <= self.map_height,
                    forall|a: int, b: int|
                        self.in_bounds(a, b) ==> #[trigger] self.tile(a, b) == if room_covers(
                            *room,
                            a,
                            b,
                        ) && (b < ys || (b == ys && a < room.x + x)) {
                            DungeonTile::TileEmpty
                        } else {
                            old(self).tile(a, b)
                        },
                decreases width - x,
            {
                let xs = x + room.x as usize;
                self.set_tile(xs, ys, DungeonTile::TileEmpty);
                x += 1;
            }
            y += 1;
        }
    }

    /// Carves every room of the layout to empty floor.
    fn create_rooms(&mut self, dungeon: &Dungeon)
        requires
            old(self).wf(),
            forall|i: int| 0 <= i < dungeon.rooms@.len()
                ==> (#[trigger] dungeon.rooms@[i]).x + dungeon.rooms@[i].width <= old(self).map_width && dungeon.rooms@[i].y + dungeon.rooms@[i].height <= old(self).map_height,
        ensures
            final(self).wf(),
            final(self).map_width == old(self).map_width,
            final(self).map_height == old(self).map_height,
            forall|a: int, b: int|
                final(self).in_bounds(a, b) ==> #[trigger] final(self).tile(a, b)
                    == if some_room_covers(dungeon.rooms@, a, b) {
                    DungeonTile::TileEmpty
                } else {
                    old(self).tile(a, b)
                },
    {
        let max_rooms = dungeon.get_rooms_number();
        let mut r: usize = 0;
        while r < max_rooms
            invariant
                old(self).wf(),
                self.wf(),
                self.map_width == old(self).map_width,
                self.map_height == old(self).map_height,
                r <= max_rooms,
                max_rooms == dungeon.rooms@.len(),
                forall|i: int| 0 <= i < dungeon.rooms@.len()
                    ==> (#[trigger] dungeon.rooms@[i]).x + dungeon.rooms@[i].width
                        <= self.map_width && dungeon.rooms@[i].y + dungeon.rooms@[i].height
                        <= self.map_height,
                forall|a: int, b: int|
                    self.in_bounds(a, b) ==> #[trigger] self.tile(a, b) == if some_room_covers(
                        dungeon.rooms@.take(r as int),
                        a,
                        b,
                    ) {
                        DungeonTile::TileEmpty
                    } else {
                        old(self).tile(a, b)
                    },
            decreases max_rooms - r,
        {
            let ghost pre = *self;
            if let Some(room) = dungeon.get_room(r) {
                self.carve_room(room);
                proof {
                    assert forall|a: int, b: int| self.in_bounds(a, b) implies #[trigger] self.tile(
                        a,
                        b,
                    ) == if some_room_covers(dungeon.rooms@.take(r as int + 1), a, b) {
                        DungeonTile::TileEmpty
                    } else {
                        old(self).tile(a, b)
                    } by {
                        let taken = dungeon.rooms@.take(r as int + 1);
                        assert(taken[r as int] == dungeon.rooms@[r as int]);
                        if some_room_covers(taken, a, b) {
                            let i = choose|i: int|
                                0 <= i < taken.len() && room_covers(taken[i], a, b);
                            if i < r as int {
                                assert(dungeon.rooms@.take(r as int)[i] == taken[i]);
                                assert(some_room_covers(dungeon.rooms@.take(r as int), a, b));
                            } else {
                                assert(room_covers(dungeon.rooms@[r as int], a, b));
                            }
                        } else {
                            assert(!room_covers(dungeon.rooms@[r as int], a, b));
                            assert(!some_room_covers(dungeon.rooms@.take(r as int), a, b)) by {
                                if some_room_covers(dungeon.rooms@.take(r as int), a, b) {
                                    let i = choose|i: int|
                                        0 <= i < r as int && room_covers(
                                            dungeon.rooms@.take(r as int)[i],
                                            a,
                                            b,
                                        );
                                    assert(taken[i] == dungeon.rooms@.take(r as int)[i]);
                                    assert(some_room_covers(taken, a, b));
                                }
                            }
                        }
                    }
                }
            }
            r += 1;
        }
        proof {
            assert(dungeon.rooms@.take(max_rooms as int) == dungeon.rooms@);
        }
    }

    /// Whether a door at the cell would sit in one of the two valid flank
    /// patterns.
    fn is_valid_door_position(&self, x: isize, y: isize) -> (r: bool)
        requires
            self.wf(),
            -0x1000_0000 <= x <= 0x1000_0000,
            -0x1000_0000 <= y <= 0x1000_0000,
        ensures
            r == self.valid_door_position(x as int, y as int),
    {
        (self.has_wall(x, y - 1) && self.has_wall(x, y + 1) && !self.has_wall(x + 1, y)
            && !self.has_wall(x - 1, y)) || (self.has_wall(x - 1, y) && self.has_wall(x + 1, y)
            && !self.has_wall(x, y - 1) && !self.has_wall(x, y + 1))
    }
    /// Along row `row`, every cell of corridor `i`'s horizontal run lies in
    /// the grid and is open: no wall matter.
    pub open spec fn run_open_at_row(self, d: Dungeon, i: int, row: int) -> bool {
        forall|x: int|
            corridor_left_x(d, d.corridors@[i]) <= x <= corridor_right_x(d, d.corridors@[i])
                ==> self.in_bounds(x, row) && !is_wallish(#[trigger] self.tile(x, row))
    }

    /// Between rows `yl` and `yr`, every cell of the terminal column of
    /// corridor `i`'s horizontal run lies in the grid and is open.
    pub open spec fn column_open_between(self, d: Dungeon, i: int, yl: int, yr: int) -> bool {
        forall|y: int|
            (if yl <= yr {
                yl <= y <= yr
            } else {
                yr <= y <= yl
            }) ==> self.in_bounds(corridor_right_x(d, d.corridors@[i]), y) && !is_wallish(
                #[trigger] self.tile(corridor_right_x(d, d.corridors@[i]), y),
            )
    }

    /// Corridor `i` is carved: for some pair of rows drawn from its two
    /// rooms' vertical extents, the horizontal run is fully open along the
    /// first row, and the terminal column is open between the two rows.
    pub open spec fn corridor_carved(self, d: Dungeon, i: int) -> bool {
        exists|yl: int, yr: int|
            corridor_left_room(d, d.corridors@[i]).y <= yl < corridor_left_room(
                d,
                d.corridors@[i],
            ).y + corridor_left_room(d, d.corridors@[i]).height && corridor_right_room(
                d,
                d.corridors@[i],
            ).y <= yr < corridor_right_room(d, d.corridors@[i]).y + corridor_right_room(
                d,
                d.corridors@[i],
            ).height && self.run_open_at_row(d, i, yl) && #[trigger] self.column_open_between(
                d,
                i,
                yl,
                yr,
            )
    }

    /// The from-side door of corridor `i` stands rasterized: on a run long
    /// enough for a door, its tile sits at the second carved cell of some
    /// row within the left room's vertical extent.
    pub open spec fn from_door_rendered(self, d: Dungeon, i: int) -> bool {
        exists|row: int|
            corridor_left_room(d, d.corridors@[i]).y <= row < corridor_left_room(
                d,
                d.corridors@[i],
            ).y + corridor_left_room(d, d.corridors@[i]).height && (
            d.corridors@[i].from_room_door matches Some(door) && #[trigger] self.tile(
                corridor_left_x(d, d.corridors@[i]) + 1,
                row,
            ) == door_tile_for(door))
    }

    /// The to-side door of corridor `i` stands rasterized somewhere on the
    /// terminal column of its horizontal run.
    pub open spec fn to_door_rendered(self, d: Dungeon, i: int) -> bool {
        exists|y: int|
            0 <= y < self.map_height && (d.corridors@[i].to_room_door matches Some(door)
                && #[trigger] self.tile(corridor_right_x(d, d.corridors@[i]), y) == door_tile_for(
                door,
            ))
    }

    /// The door tiles the carving pass owes for corridor `i`: a recorded
    /// from-door on a run long enough stands rasterized, and a recorded
    /// to-door stands rasterized whenever every possible pair of drawn rows
    /// admits one.
    pub open spec fn doors_rendered_for(self, d: Dungeon, i: int) -> bool {
        let c = d.corridors@[i];
        (corridor_right_x(d, c) - corridor_left_x(d, c) >= 3 && c.from_room_door is Some
            ==> self.from_door_rendered(d, i)) && (c.to_room_door is Some && rows_always_apart(
            d,
            c,
        ) ==> self.to_door_rendered(d, i))
    }

    /// Every cell either keeps its tile from `base`, was carved to empty
    /// floor, or holds a door tile that one of the layout's corridors
    /// accounts for at that column.
    pub open spec fn corridor_pass_ok(self, base: DungeonMap, d: Dungeon) -> bool {
        forall|a: int, b: int|
            self.in_bounds(a, b) ==> #[trigger] self.tile(a, b) == base.tile(a, b) || self.tile(
                a,
                b,
            ) == DungeonTile::TileEmpty || from_door_justified(d, a, b, self.tile(a, b))
                || to_door_justified(d, a, b, self.tile(a, b))
    }

    /// The edge the corridor's horizontal run starts from: its column, and
    /// the vertical extent (top, height) of the room that owns it.
    fn get_left_wall(&self, corridor: &Corridor, dungeon: &Dungeon) -> (r: (usize, usize, usize))
        requires
            dungeon.wf(),
            corridor.from_room_id < dungeon.rooms@.len(),
            corridor.to_room_id < dungeon.rooms@.len(),
        ensures
            r.0 == corridor_left_x(*dungeon, *corridor),
            ({
                let from = corridor_from_room(*dungeon, *corridor);
                let to = corridor_to_room(*dungeon, *corridor);
                if from.x + from.width <= to.x {
                    r.1 == from.y && r.2 == from.height
                } else {
                    r.1 == to.y && r.2 == to.height
                }
            }),
    {
        let from_room = self.resolve_room(corridor.from_room_id, dungeon);
        let to_room = self.resolve_room(corridor.to_room_id, dungeon);

        if from_room.x as usize + from_room.width as usize <= to_room.x as usize {
            (
                from_room.x as usize + from_room.width as usize,
                from_room.y as usize,
                from_room.height as usize,
            )
        } else {
            (to_room.x as usize, to_room.y as usize, to_room.height as usize)
        }
    }

    /// The edge the corridor's horizontal run ends at, with the vertical
    /// extent of the room that owns it.
    fn get_right_wall(&self, corridor: &Corridor, dungeon: &Dungeon) -> (r: (usize, usize, usize))
        requires
            dungeon.wf(),
            corridor.from_room_id < dungeon.rooms@.len(),
            corridor.to_room_id < dungeon.rooms@.len(),
        ensures
            r.0 == corridor_right_x(*dungeon, *corridor),
            ({
                let from = corridor_from_room(*dungeon, *corridor);
                let to = corridor_to_room(*dungeon, *corridor);
                if from.x + from.width > to.x {
                    r.1 == from.y && r.2 == from.height
                } else {
                    r.1 == to.y && r.2 == to.height
                }
            }),
    {
        let from_room = self.resolve_room(corridor.from_room_id, dungeon);
        let to_room = self.resolve_room(corridor.to_room_id, dungeon);

        if from_room.x as usize + from_room.width as usize > to_room.x as usize {
            (
                from_room.x as usize + from_room.width as usize,
                from_room.y as usize,
                from_room.height as usize,
            )
        } else {
            (to_room.x as usize, to_room.y as usize, to_room.height as usize)
        }
    }

    /// Looks a room up by id; in a well-formed layout every id held by a
    /// corridor resolves.
    fn resolve_room<'a>(&self, room_id: usize, dungeon: &'a Dungeon) -> (r: &'a Room)
        requires
            dungeon.wf(),
            room_id < dungeon.rooms@.len(),
        ensures
            *r == dungeon.rooms@[room_id as int],
    {
        match dungeon.get_room_by_id(room_id) {
            Some(room) => {
                proof {
                    let i = choose|i: int|
                        #[trigger] crate::dungeon::first_room_with_id(dungeon.rooms@, room_id, i)
                            && *room == dungeon.rooms@[i];
                    assert(dungeon.rooms@[i].id == i);
                }
                room
            },
            None => {
                proof {
                    assert(dungeon.rooms@[room_id as int].id == room_id);
                }
                vstd::pervasive::unreached()
            },
        }
    }

    /// The from-side door of the corridor's record in the layout, looked up
    /// by the corridor's id.
    fn get_door_from(&self, corridor: &Corridor, dungeon: &Dungeon) -> (r: Option<Door>)
        ensures
            r == if corridor.id < dungeon.corridors@.len() {
                dungeon.corridors@[corridor.id as int].from_room_door
            } else {
                None::<Door>
            },
    {
        let c = dungeon.get_corridor(corridor.id);
        match c {
            Some(x) => x.from_room_door,
            None => None,
        }
    }

    /// The to-side door of the corridor's record in the layout, looked up
    /// by the corridor's id.
    fn get_door_to(&self, corridor: &Corridor, dungeon: &Dungeon) -> (r: Option<Door>)
        ensures
            r == if corridor.id < dungeon.corridors@.len() {
                dungeon.corridors@[corridor.id as int].to_room_door
            } else {
                None::<Door>
            },
    {
        let c = dungeon.get_corridor(corridor.id);
        match c {
            Some(x) => x.to_room_door,
            None => None,
        }
    }

    /// Writes the corridor's from-side door tile at the given cell, or
    /// empty floor when the corridor carries no from-side door.
    fn create_door_from(
        &mut self,
        corridor: &Corridor,
        dungeon: &Dungeon,
        prev_x: usize,
        room_wall_y: usize,
    )
        requires
            old(self).wf(),
            prev_x < old(self).map_width,
            room_wall_y < old(self).map_height,
        ensures
            final(self).wf(),
            final(self).map_width == old(self).map_width,
            final(self).map_height == old(self).map_height,
            final(self).tile(prev_x as int, room_wall_y as int) == match (if corridor.id
                < dungeon.corridors@.len() {
                dungeon.corridors@[corridor.id as int].from_room_door
            } else {
                None::<Door>
            }) {
                Some(d) => door_tile_for(d),
                None => DungeonTile::TileEmpty,
            },
            forall|a: int, b: int|
                final(self).in_bounds(a, b) && !(a == prev_x && b == room_wall_y) ==> final(self).tile(a, b) == old(self).tile(a, b),
    {
        match self.get_door_from(corridor, dungeon) {
            Some(x) => {
                let tile = if x.open {
                    DungeonTile::TileOpenDoor
                } else {
                    DungeonTile::TileClosedDoor
                };
                self.set_tile(prev_x, room_wall_y, tile);
            },
            None => self.set_tile(prev_x, room_wall_y, DungeonTile::TileEmpty),
        }
    }

    /// Writes the corridor's to-side door tile at the given cell, or empty
    /// floor when the corridor carries no to-side door.
    fn create_door_to(
        &mut self,
        corridor: &Corridor,
        dungeon: &Dungeon,
        prev_x: usize,
        room_wall_y: usize,
    )
        requires
            old(self).wf(),
            prev_x < old(self).map_width,
            room_wall_y < old(self).map_height,
        ensures
            final(self).wf(),
            final(self).map_width == old(self).map_width,
            final(self).map_height == old(self).map_height,
            final(self).tile(prev_x as int, room_wall_y as int) == match (if corridor.id
                < dungeon.corridors@.len() {
                dungeon.corridors@[corridor.id as int].to_room_door
            } else {
                None::<Door>
            }) {
                Some(d) => door_tile_for(d),
                None => DungeonTile::TileEmpty,
            },
            forall|a: int, b: int|
                final(self).in_bounds(a, b) && !(a == prev_x && b == room_wall_y) ==> final(self).tile(a, b) == old(self).tile(a, b),
    {
        match self.get_door_to(corridor, dungeon) {
            Some(x) => {
                let tile = if x.open {
                    DungeonTile::TileOpenDoor
                } else {
                    DungeonTile::TileClosedDoor
                };
                self.set_tile(prev_x, room_wall_y, tile);
            },
            None => self.set_tile(prev_x, room_wall_y, DungeonTile::TileEmpty),
        }
    }

    /// Carves every corridor: a horizontal run of empty floor along a
    /// random row of the left room, then a vertical run at its terminal
    /// column to a random row of the right room. A horizontal run at least
    /// three cells long gets the from-side door tile written over its
    /// second cell; a vertical run at least three cells long gets the
    /// to-side door tile written two cells before its far end.
    #[verifier::rlimit(100)]
    fn create_corridors(&mut self, dungeon: &Dungeon, rng: &mut DungeonRng)
        requires
            old(self).wf(),
            dungeon.wf(),
            forall|i: int| 0 <= i < dungeon.rooms@.len()
                ==> (#[trigger] dungeon.rooms@[i]).x + dungeon.rooms@[i].width < old(self).map_width && dungeon.rooms@[i].y + dungeon.rooms@[i].height <= old(self).map_height,
        ensures
            final(self).wf(),
            final(self).map_width == old(self).map_width,
            final(self).map_height == old(self).map_height,
            final(self).corridor_pass_ok(*old(self), *dungeon),
            forall|a: int, b: int|
                final(self).in_bounds(a, b) && is_wallish(#[trigger] final(self).tile(a, b))
                    ==> is_wallish(old(self).tile(a, b)),
            forall|i: int| 0 <= i < dungeon.corridors@.len()
                ==> final(self).corridor_carved(*dungeon, i),
            dungeon.corridors@.len() > 0 ==> final(self).doors_rendered_for(
                *dungeon,
                dungeon.corridors@.len() - 1,
            ),
    {
        let corridors_number = dungeon.get_corridors_number();
        let mut ci: usize = 0;
        while ci < corridors_number
            invariant
                old(self).wf(),
                self.wf(),
                self.map_width == old(self).map_width,
                self.map_height == old(self).map_height,
                dungeon.wf(),
                corridors_number == dungeon.corridors@.len(),
                forall|i: int| 0 <= i < dungeon.rooms@.len()
                    ==> (#[trigger] dungeon.rooms@[i]).x + dungeon.rooms@[i].width
                        < self.map_width && dungeon.rooms@[i].y + dungeon.rooms@[i].height
                        <= self.map_height,
                ci <= corridors_number,
                self.corridor_pass_ok(*old(self), *dungeon),
                forall|a: int, b: int|
                    self.in_bounds(a, b) && is_wallish(#[trigger] self.tile(a, b)) ==> is_wallish(
                        old(self).tile(a, b),
                    ),
                forall|j: int| 0 <= j < ci ==> self.corridor_carved(*dungeon, j),
                ci >= 1 ==> self.doors_rendered_for(*dungeon, ci as int - 1),
            decreases corridors_number - ci,
        {
            if let Some(corridor) = dungeon.get_corridor(ci) {
                let left = self.get_left_wall(corridor, dungeon);
                let right = self.get_right_wall(corridor, dungeon);

                proof {
                    assert(dungeon.rooms@[corridor.from_room_id as int].x
                        + dungeon.rooms@[corridor.from_room_id as int].width < self.map_width);
                    assert(dungeon.rooms@[corridor.to_room_id as int].x
                        + dungeon.rooms@[corridor.to_room_id as int].width < self.map_width);
                    assert(dungeon.rooms@[corridor.from_room_id as int].y
                        + dungeon.rooms@[corridor.from_room_id as int].height <= self.map_height);
                    assert(dungeon.rooms@[corridor.to_room_id as int].y
                        + dungeon.rooms@[corridor.to_room_id as int].height <= self.map_height);
                }

                // A random row in the left room's wall to start from, and
                // one in the right room's wall to end at.
                let left_room_wall_y = rng.sample(0, left.2 as u64) as usize + left.1;
                let right_room_wall_y = rng.sample(0, right.2 as u64) as usize + right.1;
                proof {
                    assert(corridor_left_room(*dungeon, *corridor).y <= left_room_wall_y
                        < corridor_left_room(*dungeon, *corridor).y + corridor_left_room(
                        *dungeon,
                        *corridor,
                    ).height);
                    assert(corridor_right_room(*dungeon, *corridor).y <= right_room_wall_y
                        < corridor_right_room(*dungeon, *corridor).y + corridor_right_room(
                        *dungeon,
                        *corridor,
                    ).height);
                }

                let pos_x0 = left.0;
                let corridor_x_len = right.0 - pos_x0;
                let mut prev_x: usize = pos_x0;

                let mut xo: usize = 0;
                while xo <= corridor_x_len
                    invariant
                        old(self).wf(),
                        self.wf(),
                        self.map_width == old(self).map_width,
                        self.map_height == old(self).map_height,
                        dungeon.wf(),
                        corridors_number == dungeon.corridors@.len(),
                        ci < corridors_number,
                        *corridor == dungeon.corridors@[ci as int],
                        pos_x0 == corridor_left_x(*dungeon, *corridor),
                        pos_x0 + corridor_x_len == corridor_right_x(*dungeon, *corridor),
                        pos_x0 + corridor_x_len < self.map_width,
                        left_room_wall_y < self.map_height,
                        corridor_left_room(*dungeon, *corridor).y <= left_room_wall_y
                            < corridor_left_room(*dungeon, *corridor).y + corridor_left_room(
                            *dungeon,
                            *corridor,
                        ).height,
                        xo <= corridor_x_len + 1,
                        xo == 0 ==> prev_x == pos_x0,
                        xo >= 1 ==> prev_x == pos_x0 + xo - 1,
                        self.corridor_pass_ok(*old(self), *dungeon),
                        forall|a: int, b: int|
                            self.in_bounds(a, b) && is_wallish(#[trigger] self.tile(a, b))
                                ==> is_wallish(old(self).tile(a, b)),
                        forall|j: int| 0 <= j < ci ==> self.corridor_carved(*dungeon, j),
                        forall|x: int| pos_x0 <= x < pos_x0 + xo
                            ==> self.in_bounds(x, left_room_wall_y as int) && !is_wallish(
                            #[trigger] self.tile(x, left_room_wall_y as int)),
                        corridor.from_room_door matches Some(door) ==> (corridor_x_len >= 3 && xo
                            >= 2 ==> self.tile(pos_x0 as int + 1, left_room_wall_y as int)
                            == door_tile_for(door)),
                    decreases corridor_x_len + 1 - xo,
                {
                    let ghost pre = *self;
                    prev_x = pos_x0 + xo;
                    if xo == 1 && corridor_x_len >= 3 {
                        self.create_door_from(corridor, dungeon, prev_x, left_room_wall_y);
                        proof {
                            if self.tile(prev_x as int, left_room_wall_y as int)
                                != DungeonTile::TileEmpty {
                                assert(from_door_justified_at(
                                    *dungeon,
                                    ci as int,
                                    prev_x as int,
                                    left_room_wall_y as int,
                                    self.tile(prev_x as int, left_room_wall_y as int),
                                ));
                            }
                        }
                    } else {
                        self.set_tile(prev_x, left_room_wall_y, DungeonTile::TileEmpty);
                    }
                    proof {
                        assert forall|a: int, b: int| self.in_bounds(a, b) implies #[trigger] self.tile(
                            a,
                            b,
                        ) == old(self).tile(a, b) || self.tile(a, b) == DungeonTile::TileEmpty
                            || from_door_justified(*dungeon, a, b, self.tile(a, b))
                            || to_door_justified(*dungeon, a, b, self.tile(a, b)) by {
                            if !(a == prev_x && b == left_room_wall_y) {
                                assert(self.tile(a, b) == pre.tile(a, b));
                            }
                        }
                        assert(!is_wallish(self.tile(prev_x as int, left_room_wall_y as int)));
                        assert forall|a: int, b: int|
                            self.in_bounds(a, b) && is_wallish(
                                #[trigger] self.tile(a, b),
                            ) implies is_wallish(pre.tile(a, b)) by {
                            if !(a == prev_x && b == left_room_wall_y) {
                                assert(self.tile(a, b) == pre.tile(a, b));
                            }
                        }
                        assert forall|j: int| 0 <= j < ci implies self.corridor_carved(
                            *dungeon,
                            j,
                        ) by {
                            lemma_corridor_carved_preserved(pre, *self, *dungeon, j);
                        }
                    }
                    xo += 1;
                }
                proof {
                    assert(self.run_open_at_row(
                        *dungeon,
                        ci as int,
                        left_room_wall_y as int,
                    ));
                }

                let corridor_y_len = if left_room_wall_y >= right_room_wall_y {
                    left_room_wall_y - right_room_wall_y
                } else {
                    right_room_wall_y - left_room_wall_y
                };
                let down = left_room_wall_y < right_room_wall_y;

                let mut yo: usize = 0;
                while yo <= corridor_y_len
                    invariant
                        old(self).wf(),
                        self.wf(),
                        self.map_width == old(self).map_width,
                        self.map_height == old(self).map_height,
                        dungeon.wf(),
                        corridors_number == dungeon.corridors@.len(),
                        ci < corridors_number,
                        *corridor == dungeon.corridors@[ci as int],
                        pos_x0 == corridor_left_x(*dungeon, *corridor),
                        prev_x == corridor_right_x(*dungeon, *corridor),
                        prev_x == pos_x0 + corridor_x_len,
                        yo <= corridor_y_len + 1,
                        prev_x < self.map_width,
                        left_room_wall_y < self.map_height,
                        right_room_wall_y < self.map_height,
                        down ==> right_room_wall_y == left_room_wall_y + corridor_y_len,
                        !down ==> left_room_wall_y == right_room_wall_y + corridor_y_len,
                        self.corridor_pass_ok(*old(self), *dungeon),
                        forall|a: int, b: int|
                            self.in_bounds(a, b) && is_wallish(#[trigger] self.tile(a, b))
                                ==> is_wallish(old(self).tile(a, b)),
                        forall|j: int| 0 <= j < ci ==> self.corridor_carved(*dungeon, j),
                        self.run_open_at_row(*dungeon, ci as int, left_room_wall_y as int),
                        forall|y: int|
                            (if down {
                                left_room_wall_y <= y < left_room_wall_y + yo
                            } else {
                                left_room_wall_y - yo < y <= left_room_wall_y
                            }) ==> self.in_bounds(prev_x as int, y) && !is_wallish(
                            #[trigger] self.tile(prev_x as int, y)),
                        corridor.from_room_door matches Some(door) ==> (corridor_x_len >= 3
                            ==> self.tile(pos_x0 as int + 1, left_room_wall_y as int)
                            == door_tile_for(door)),
                    decreases corridor_y_len + 1 - yo,
                {
                    let ghost pre = *self;
                    let ypos = if down {
                        left_room_wall_y + yo
                    } else {
                        left_room_wall_y - yo
                    };
                    self.set_tile(prev_x, ypos, DungeonTile::TileEmpty);
                    proof {
                        assert forall|a: int, b: int| self.in_bounds(a, b) implies #[trigger] self.tile(
                            a,
                            b,
                        ) == old(self).tile(a, b) || self.tile(a, b) == DungeonTile::TileEmpty
                            || from_door_justified(*dungeon, a, b, self.tile(a, b))
                            || to_door_justified(*dungeon, a, b, self.tile(a, b)) by {
                            if !(a == prev_x && b == ypos) {
                                assert(self.tile(a, b) == pre.tile(a, b));
                            }
                        }
                        assert forall|a: int, b: int|
                            self.in_bounds(a, b) && is_wallish(
                                #[trigger] self.tile(a, b),
                            ) implies is_wallish(pre.tile(a, b)) by {
                            if !(a == prev_x && b == ypos) {
                                assert(self.tile(a, b) == pre.tile(a, b));
                            }
                        }
                        assert forall|j: int| 0 <= j < ci implies self.corridor_carved(
                            *dungeon,
                            j,
                        ) by {
                            lemma_corridor_carved_preserved(pre, *self, *dungeon, j);
                        }
                        assert(self.run_open_at_row(
                            *dungeon,
                            ci as int,
                            left_room_wall_y as int,
                        ));
                    }
                    yo += 1;
                }

                if corridor_y_len >= 3 {
                    let ghost pre = *self;
                    let door_y = if down {
                        left_room_wall_y + (corridor_y_len - 2)
                    } else {
                        left_room_wall_y - (corridor_y_len - 2)
                    };
                    self.create_door_to(corridor, dungeon, prev_x, door_y);
                    proof {
                        if self.tile(prev_x as int, door_y as int) != DungeonTile::TileEmpty {
                            assert(to_door_rows_ok(
                                *dungeon,
                                *corridor,
                                left_room_wall_y as int,
                                right_room_wall_y as int,
                                door_y as int,
                            ));
                            assert(to_door_justified_at(
                                *dungeon,
                                ci as int,
                                prev_x as int,
                                door_y as int,
                                self.tile(prev_x as int, door_y as int),
                            ));
                        }
                        assert forall|a: int, b: int| self.in_bounds(a, b) implies #[trigger] self.tile(
                            a,
                            b,
                        ) == old(self).tile(a, b) || self.tile(a, b) == DungeonTile::TileEmpty
                            || from_door_justified(*dungeon, a, b, self.tile(a, b))
                            || to_door_justified(*dungeon, a, b, self.tile(a, b)) by {
                            if !(a == prev_x && b == door_y) {
                                assert(self.tile(a, b) == pre.tile(a, b));
                            }
                        }
                        assert(!is_wallish(self.tile(prev_x as int, door_y as int)));
                        assert forall|a: int, b: int|
                            self.in_bounds(a, b) && is_wallish(
                                #[trigger] self.tile(a, b),
                            ) implies is_wallish(pre.tile(a, b)) by {
                            if !(a == prev_x && b == door_y) {
                                assert(self.tile(a, b) == pre.tile(a, b));
                            }
                        }
                        assert forall|j: int| 0 <= j < ci implies self.corridor_carved(
                            *dungeon,
                            j,
                        ) by {
                            lemma_corridor_carved_preserved(pre, *self, *dungeon, j);
                        }
                        assert(self.run_open_at_row(
                            *dungeon,
                            ci as int,
                            left_room_wall_y as int,
                        ));
                        assert forall|y: int|
                            (if down {
                                left_room_wall_y <= y <= right_room_wall_y
                            } else {
                                right_room_wall_y <= y <= left_room_wall_y
                            }) implies self.in_bounds(prev_x as int, y) && !is_wallish(
                            #[trigger] self.tile(prev_x as int, y)) by {
                            if !(prev_x == prev_x && y == door_y) {
                                assert(self.tile(prev_x as int, y) == pre.tile(prev_x as int, y));
                            }
                        }
                        if corridor.to_room_door is Some {
                            assert(self.to_door_rendered(*dungeon, ci as int));
                        }
                        if corridor.from_room_door is Some && corridor_x_len >= 3 {
                            assert(self.tile(pos_x0 as int + 1, left_room_wall_y as int)
                                == pre.tile(pos_x0 as int + 1, left_room_wall_y as int));
                        }
                    }
                }
                proof {
                    // The drawn rows witness the carved run and column; the
                    // owed door tiles stand where the pass wrote them.
                    assert forall|y: int|
                        (if left_room_wall_y as int <= right_room_wall_y as int {
                            left_room_wall_y <= y <= right_room_wall_y
                        } else {
                            right_room_wall_y <= y <= left_room_wall_y
                        }) implies self.in_bounds(prev_x as int, y) && !is_wallish(
                        #[trigger] self.tile(prev_x as int, y)) by {}
                    assert(self.column_open_between(
                        *dungeon,
                        ci as int,
                        left_room_wall_y as int,
                        right_room_wall_y as int,
                    ));
                    assert(self.corridor_carved(*dungeon, ci as int));
                    if corridor_x_len >= 3 && corridor.from_room_door is Some {
                        assert(self.from_door_rendered(*dungeon, ci as int));
                    }
                    if corridor.to_room_door is Some && rows_always_apart(*dungeon, *corridor) {
                        assert(corridor_y_len >= 3);
                        assert(self.to_door_rendered(*dungeon, ci as int));
                    }
                    assert(self.doors_rendered_for(*dungeon, ci as int));
                }
            }
            ci += 1;
        }
    }


    /// Opens up wall blocks that touch no floor: a first pass marks every
    /// cell whose whole neighborhood is wall matter, a second pass turns
    /// the marks into empty floor. Only a thin wall shell around carved
    /// regions survives, and no transient mark does.
    fn remove_redundant_walls(&mut self)
        requires
            old(self).wf(),
        ensures
            final(self).wf(),
            final(self).map_width == old(self).map_width,
            final(self).map_height == old(self).map_height,
            forall|a: int, b: int|
                final(self).in_bounds(a, b) ==> #[trigger] final(self).tile(a, b) == if old(self).walls_around(a, b) || old(self).tile(a, b) == DungeonTile::TileDummy {
                    DungeonTile::TileEmpty
                } else {
                    old(self).tile(a, b)
                },
            forall|a: int, b: int|
                final(self).in_bounds(a, b) ==> #[trigger] final(self).tile(a, b)
                    != DungeonTile::TileDummy,
    {
        let mut y: usize = 0;
        while y < self.map_height
            invariant
                old(self).wf(),
                self.wf(),
                self.map_width == old(self).map_width,
                self.map_height == old(self).map_height,
                y <= self.map_height,
                self.same_wallishness(*old(self)),
                forall|a: int, b: int|
                    self.in_bounds(a, b) ==> #[trigger] self.tile(a, b) == if b < y && old(self).walls_around(a, b) {
                        DungeonTile::TileDummy
                    } else {
                        old(self).tile(a, b)
                    },
            decreases self.map_height - y,
        {
            let mut x: usize = 0;
            while x < self.map_width
                invariant
                    old(self).wf(),
                    self.wf(),
                    self.map_width == old(self).map_width,
                    self.map_height == old(self).map_height,
                    y < self.map_height,
                    x <= self.map_width,
                    self.same_wallishness(*old(self)),
                    forall|a: int, b: int|
                        self.in_bounds(a, b) ==> #[trigger] self.tile(a, b) == if (b < y || (b == y
                            && a < x)) && old(self).walls_around(a, b) {
                            DungeonTile::TileDummy
                        } else {
                            old(self).tile(a, b)
                        },
                decreases self.map_width - x,
            {
                proof {
                    lemma_neighborhood_same(*self, *old(self), x as int, y as int);
                }
                if self.has_walls_around(x as isize, y as isize) {
                    let ghost pre = *self;
                    self.set_tile(x, y, DungeonTile::TileDummy);
                    proof {
                        assert(is_wallish(old(self).tile(x as int, y as int)));
                        assert forall|a: int, b: int| self.in_bounds(a, b) implies is_wallish(
                            #[trigger] self.tile(a, b),
                        ) == is_wallish(old(self).tile(a, b)) by {
                            if !(a == x && b == y) {
                                assert(self.tile(a, b) == pre.tile(a, b));
                            }
                        }
                    }
                }
                x += 1;
            }
            y += 1;
        }
        let ghost mid = *self;
        let mut y2: usize = 0;
        while y2 < self.map_height
            invariant
                mid.wf(),
                self.wf(),
                self.map_width == mid.map_width,
                self.map_height == mid.map_height,
                y2 <= self.map_height,
                forall|a: int, b: int|
                    self.in_bounds(a, b) ==> #[trigger] self.tile(a, b) == if b < y2 && mid.tile(
                        a,
                        b,
                    ) == DungeonTile::TileDummy {
                        DungeonTile::TileEmpty
                    } else {
                        mid.tile(a, b)
                    },
            decreases self.map_height - y2,
        {
            let mut x2: usize = 0;
            while x2 < self.map_width
                invariant
                    mid.wf(),
                    self.wf(),
                    self.map_width == mid.map_width,
                    self.map_height == mid.map_height,
                    y2 < self.map_height,
                    x2 <= self.map_width,
                    forall|a: int, b: int|
                        self.in_bounds(a, b) ==> #[trigger] self.tile(a, b) == if (b < y2 || (b
                            == y2 && a < x2)) && mid.tile(a, b) == DungeonTile::TileDummy {
                            DungeonTile::TileEmpty
                        } else {
                            mid.tile(a, b)
                        },
                decreases self.map_width - x2,
            {
                if self.map[x2][y2] == DungeonTile::TileDummy {
                    self.set_tile(x2, y2, DungeonTile::TileEmpty);
                }
                x2 += 1;
            }
            y2 += 1;
        }
    }

    /// Demotes every door cell that does not sit in one of the two valid
    /// flank patterns to empty floor; the doors that remain are exactly
    /// the validly placed ones.
    fn remove_not_useful_doors(&mut self)
        requires
            old(self).wf(),
        ensures
            final(self).wf(),
            final(self).map_width == old(self).map_width,
            final(self).map_height == old(self).map_height,
            forall|a: int, b: int|
                final(self).in_bounds(a, b) ==> #[trigger] final(self).tile(a, b)
                    == if is_door_tile(old(self).tile(a, b)) && !old(self).valid_door_position(
                    a,
                    b,
                ) {
                    DungeonTile::TileEmpty
                } else {
                    old(self).tile(a, b)
                },
            forall|a: int, b: int|
                final(self).in_bounds(a, b) && is_door_tile(#[trigger] final(self).tile(a, b))
                    ==> final(self).valid_door_position(a, b),
    {
        let mut y: usize = 0;
        while y < self.map_height
            invariant
                old(self).wf(),
                self.wf(),
                self.map_width == old(self).map_width,
                self.map_height == old(self).map_height,
                y <= self.map_height,
                self.same_wallishness(*old(self)),
                forall|a: int, b: int|
                    self.in_bounds(a, b) ==> #[trigger] self.tile(a, b) == if b < y
                        && is_door_tile(old(self).tile(a, b)) && !old(self).valid_door_position(
                        a,
                        b,
                    ) {
                        DungeonTile::TileEmpty
                    } else {
                        old(self).tile(a, b)
                    },
            decreases self.map_height - y,
        {
            let mut x: usize = 0;
            while x < self.map_width
                invariant
                    old(self).wf(),
                    self.wf(),
                    self.map_width == old(self).map_width,
                    self.map_height == old(self).map_height,
                    y < self.map_height,
                    x <= self.map_width,
                    self.same_wallishness(*old(self)),
                    forall|a: int, b: int|
                        self.in_bounds(a, b) ==> #[trigger] self.tile(a, b) == if (b < y || (b == y
                            && a < x)) && is_door_tile(old(self).tile(a, b)) && !old(self).valid_door_position(a, b) {
                            DungeonTile::TileEmpty
                        } else {
                            old(self).tile(a, b)
                        },
                decreases self.map_width - x,
            {
                let t = self.map[x][y];
                if t == DungeonTile::TileClosedDoor || t == DungeonTile::TileOpenDoor {
                    proof {
                        lemma_neighborhood_same(*self, *old(self), x as int, y as int);
                    }
                    if !self.is_valid_door_position(x as isize, y as isize) {
                        let ghost pre = *self;
                        self.set_tile(x, y, DungeonTile::TileEmpty);
                        proof {
                            assert forall|a: int, b: int| self.in_bounds(a, b) implies is_wallish(
                                #[trigger] self.tile(a, b),
                            ) == is_wallish(old(self).tile(a, b)) by {
                                if !(a == x && b == y) {
                                    assert(self.tile(a, b) == pre.tile(a, b));
                                }
                            }
                        }
                    }
                }
                x += 1;
            }
            y += 1;
        }
        proof {
            assert forall|a: int, b: int|
                self.in_bounds(a, b) && is_door_tile(
                    #[trigger] self.tile(a, b),
                ) implies self.valid_door_position(a, b) by {
                lemma_neighborhood_same(*self, *old(self), a, b);
            }
        }
    }
    /// Drops every room's items onto the grid: up to ten attempts per item
    /// to find a random in-room cell not already holding an item marker;
    /// items whose attempts all fail stay off the map. A cell that holds a
    /// marker is never overwritten; a written marker is a key marker
    /// exactly when it stands for a key item, else a chest marker; and on
    /// a marker-free grid every room holding an item receives at least one
    /// marker, since an item's first draw can only land on open room
    /// interior then.
    fn create_items(&mut self, dungeon: &Dungeon, rng: &mut DungeonRng)
        requires
            old(self).wf(),
            dungeon.wf(),
            forall|i: int| 0 <= i < dungeon.rooms@.len()
                ==> (#[trigger] dungeon.rooms@[i]).x + dungeon.rooms@[i].width <= old(self).map_width
                    && dungeon.rooms@[i].y + dungeon.rooms@[i].height <= old(self).map_height,
        ensures
            final(self).wf(),
            final(self).map_width == old(self).map_width,
            final(self).map_height == old(self).map_height,
            forall|a: int, b: int|
                final(self).in_bounds(a, b) ==> #[trigger] final(self).tile(a, b) == old(self).tile(
                    a,
                    b,
                ) || (!is_marker(old(self).tile(a, b)) && marker_accounted(
                    *dungeon,
                    final(self).tile(a, b),
                    a,
                    b,
                )),
            forall|a: int, b: int|
                final(self).in_bounds(a, b) && is_marker(#[trigger] old(self).tile(a, b))
                    ==> final(self).tile(a, b) == old(self).tile(a, b),
            old(self).no_markers() ==> forall|i: int|
                0 <= i < dungeon.rooms@.len() && (#[trigger] dungeon.rooms@[i]).items@.len() > 0
                    ==> final(self).room_has_marker(dungeon.rooms@[i]),
            ({
                let written = Set::new(
                    |p: (int, int)|
                        final(self).in_bounds(p.0, p.1) && final(self).tile(p.0, p.1) != old(
                            self,
                        ).tile(p.0, p.1),
                );
                written.finite() && written.len() <= total_items(dungeon.rooms@)
            }),
    {
        let rooms_number = dungeon.get_rooms_number();
        let ghost mut changed: Set<(int, int)> = Set::empty();
        let mut r: usize = 0;
        while r < rooms_number
            invariant
                old(self).wf(),
                self.wf(),
                self.map_width == old(self).map_width,
                self.map_height == old(self).map_height,
                dungeon.wf(),
                rooms_number == dungeon.rooms@.len(),
                forall|i: int| 0 <= i < dungeon.rooms@.len()
                    ==> (#[trigger] dungeon.rooms@[i]).x + dungeon.rooms@[i].width
                        <= self.map_width && dungeon.rooms@[i].y + dungeon.rooms@[i].height
                        <= self.map_height,
                r <= rooms_number,
                forall|a: int, b: int|
                    self.in_bounds(a, b) ==> #[trigger] self.tile(a, b) == old(self).tile(a, b) || (
                    !is_marker(old(self).tile(a, b)) && marker_accounted(
                        *dungeon,
                        self.tile(a, b),
                        a,
                        b,
                    )),
                forall|a: int, b: int|
                    self.in_bounds(a, b) && is_marker(#[trigger] old(self).tile(a, b))
                        ==> self.tile(a, b) == old(self).tile(a, b),
                forall|a: int, b: int|
                    self.in_bounds(a, b) && is_marker(#[trigger] self.tile(a, b)) && !is_marker(
                        old(self).tile(a, b),
                    ) ==> some_room_covers(dungeon.rooms@.take(r as int), a, b),
                old(self).no_markers() ==> forall|i: int|
                    0 <= i < r && (#[trigger] dungeon.rooms@[i]).items@.len() > 0
                        ==> self.room_has_marker(dungeon.rooms@[i]),
                changed.finite(),
                forall|a: int, b: int|
                    self.in_bounds(a, b) ==> (changed.contains((a, b)) <==> #[trigger] self.tile(
                        a,
                        b,
                    ) != old(self).tile(a, b)),
                forall|p: (int, int)| changed.contains(p) ==> self.in_bounds(p.0, p.1),
                changed.len() <= total_items(dungeon.rooms@.take(r as int)),
            decreases rooms_number - r,
        {
            let room = match dungeon.get_room(r) {
                Some(rm) => rm,
                None => vstd::pervasive::unreached(),
            };
            let items_count = room.items.len();
            proof {
                // Before this room's items are placed, its interior is
                // marker-free on a marker-free input grid: every marker so
                // far lies in an earlier room, and interiors are disjoint.
                if old(self).no_markers() {
                    assert forall|a: int, b: int|
                        self.in_bounds(a, b) && room_covers(
                            dungeon.rooms@[r as int],
                            a,
                            b,
                        ) implies !is_marker(#[trigger] self.tile(a, b)) by {
                        if is_marker(self.tile(a, b)) {
                            assert(!is_marker(old(self).tile(a, b)));
                            assert(some_room_covers(dungeon.rooms@.take(r as int), a, b));
                            let i = choose|i: int|
                                0 <= i < r && room_covers(
                                    #[trigger] dungeon.rooms@.take(r as int)[i],
                                    a,
                                    b,
                                );
                            assert(dungeon.rooms@.take(r as int)[i] == dungeon.rooms@[i]);
                            lemma_one_room_per_cell(*dungeon, i, r as int, a, b);
                        }
                    }
                }
            }
            let mut ii: usize = 0;
            while ii < items_count
                invariant
                    old(self).wf(),
                    self.wf(),
                    self.map_width == old(self).map_width,
                    self.map_height == old(self).map_height,
                    dungeon.wf(),
                    rooms_number == dungeon.rooms@.len(),
                    r < rooms_number,
                    *room == dungeon.rooms@[r as int],
                    items_count == room.items@.len(),
                    ii <= items_count,
                    room.x + room.width <= self.map_width,
                    room.y + room.height <= self.map_height,
                    forall|a: int, b: int|
                        self.in_bounds(a, b) ==> #[trigger] self.tile(a, b) == old(self).tile(a, b)
                            || (!is_marker(old(self).tile(a, b)) && marker_accounted(
                            *dungeon,
                            self.tile(a, b),
                            a,
                            b,
                        )),
                    forall|a: int, b: int|
                        self.in_bounds(a, b) && is_marker(#[trigger] old(self).tile(a, b))
                            ==> self.tile(a, b) == old(self).tile(a, b),
                    forall|a: int, b: int|
                        self.in_bounds(a, b) && is_marker(#[trigger] self.tile(a, b)) && !is_marker(
                            old(self).tile(a, b),
                        ) ==> some_room_covers(dungeon.rooms@.take(r as int + 1), a, b),
                    old(self).no_markers() ==> forall|i: int|
                        0 <= i < r && (#[trigger] dungeon.rooms@[i]).items@.len() > 0
                            ==> self.room_has_marker(dungeon.rooms@[i]),
                    old(self).no_markers() && ii == 0 ==> forall|a: int, b: int|
                        self.in_bounds(a, b) && room_covers(dungeon.rooms@[r as int], a, b)
                            ==> !is_marker(#[trigger] self.tile(a, b)),
                    old(self).no_markers() && ii >= 1 && items_count > 0
                        ==> self.room_has_marker(dungeon.rooms@[r as int]),
                    changed.finite(),
                    forall|a: int, b: int|
                        self.in_bounds(a, b) ==> (changed.contains((a, b))
                            <==> #[trigger] self.tile(a, b) != old(self).tile(a, b)),
                    forall|p: (int, int)| changed.contains(p) ==> self.in_bounds(p.0, p.1),
                    changed.len() <= total_items(dungeon.rooms@.take(r as int)) + ii,
                decreases items_count - ii,
            {
                let mut loop_number: u16 = 10;
                let mut placed = false;
                while loop_number > 0 && !placed
                    invariant
                        old(self).wf(),
                        self.wf(),
                        self.map_width == old(self).map_width,
                        self.map_height == old(self).map_height,
                        dungeon.wf(),
                        rooms_number == dungeon.rooms@.len(),
                        r < rooms_number,
                        *room == dungeon.rooms@[r as int],
                        items_count == room.items@.len(),
                        ii < items_count,
                        room.x + room.width <= self.map_width,
                        room.y + room.height <= self.map_height,
                        forall|a: int, b: int|
                            self.in_bounds(a, b) ==> #[trigger] self.tile(a, b) == old(self).tile(
                                a,
                                b,
                            ) || (!is_marker(old(self).tile(a, b)) && marker_accounted(
                                *dungeon,
                                self.tile(a, b),
                                a,
                                b,
                            )),
                        forall|a: int, b: int|
                            self.in_bounds(a, b) && is_marker(#[trigger] old(self).tile(a, b))
                                ==> self.tile(a, b) == old(self).tile(a, b),
                        forall|a: int, b: int|
                            self.in_bounds(a, b) && is_marker(#[trigger] self.tile(a, b))
                                && !is_marker(old(self).tile(a, b)) ==> some_room_covers(
                                dungeon.rooms@.take(r as int + 1),
                                a,
                                b,
                            ),
                        old(self).no_markers() ==> forall|i: int|
                            0 <= i < r && (#[trigger] dungeon.rooms@[i]).items@.len() > 0
                                ==> self.room_has_marker(dungeon.rooms@[i]),
                        old(self).no_markers() && ii == 0 && !placed ==> forall|a: int, b: int|
                            self.in_bounds(a, b) && room_covers(dungeon.rooms@[r as int], a, b)
                                ==> !is_marker(#[trigger] self.tile(a, b)),
                        old(self).no_markers() && ii == 0 && !placed ==> loop_number == 10,
                        placed ==> self.room_has_marker(dungeon.rooms@[r as int]),
                        old(self).no_markers() && ii >= 1 && items_count > 0
                            ==> self.room_has_marker(dungeon.rooms@[r as int]),
                        changed.finite(),
                        forall|a: int, b: int|
                            self.in_bounds(a, b) ==> (changed.contains((a, b))
                                <==> #[trigger] self.tile(a, b) != old(self).tile(a, b)),
                        forall|p: (int, int)| changed.contains(p) ==> self.in_bounds(p.0, p.1),
                        changed.len() <= total_items(dungeon.rooms@.take(r as int)) + ii + (
                        if placed {
                            1int
                        } else {
                            0int
                        }),
                    decreases loop_number, (if placed { 0int } else { 1int }),
                {
                    let r_x = rng.sample(
                        room.x as u64,
                        room.x as u64 + room.width as u64,
                    ) as usize;
                    let r_y = rng.sample(
                        room.y as u64,
                        room.y as u64 + room.height as u64,
                    ) as usize;

                    let tile = self.map[r_x][r_y];
                    proof {
                        assert(room_covers(dungeon.rooms@[r as int], r_x as int, r_y as int));
                    }
                    if tile != DungeonTile::TileChest && tile != DungeonTile::TileKey {
                        let ghost pre = *self;
                        if room.items[ii].item_type == ItemType::Key(0) {
                            self.set_tile(r_x, r_y, DungeonTile::TileKey);
                        } else {
                            self.set_tile(r_x, r_y, DungeonTile::TileChest);
                        }
                        proof {
                            let t = self.tile(r_x as int, r_y as int);
                            assert(room.items@[ii as int].item_type == ItemType::Key(0) ==> t
                                == DungeonTile::TileKey);
                            assert(marker_matches_room(dungeon.rooms@[r as int], t));
                            assert(marker_accounted(*dungeon, t, r_x as int, r_y as int));
                            // The written cell was unchanged until now, so
                            // it is fresh in the changed set.
                            assert(pre.tile(r_x as int, r_y as int) == old(self).tile(
                                r_x as int,
                                r_y as int,
                            ));
                            assert(!changed.contains((r_x as int, r_y as int)));
                            vstd::set::axiom_set_insert_finite(changed, (r_x as int, r_y as int));
                            vstd::set::axiom_set_insert_len(changed, (r_x as int, r_y as int));
                            changed = changed.insert((r_x as int, r_y as int));
                            assert forall|a: int, b: int| self.in_bounds(a, b) implies (
                            #[trigger] self.tile(a, b) == old(self).tile(a, b) || (!is_marker(
                                old(self).tile(a, b),
                            ) && marker_accounted(*dungeon, self.tile(a, b), a, b))) && (is_marker(
                                old(self).tile(a, b),
                            ) ==> self.tile(a, b) == old(self).tile(a, b)) && (is_marker(
                                self.tile(a, b),
                            ) && !is_marker(old(self).tile(a, b)) ==> some_room_covers(
                                dungeon.rooms@.take(r as int + 1),
                                a,
                                b,
                            )) && (changed.contains((a, b)) <==> self.tile(a, b) != old(self).tile(
                                a,
                                b,
                            )) by {
                                if !(a == r_x && b == r_y) {
                                    assert(self.tile(a, b) == pre.tile(a, b));
                                } else {
                                    assert(dungeon.rooms@.take(r as int + 1)[r as int]
                                        == dungeon.rooms@[r as int]);
                                    assert(some_room_covers(
                                        dungeon.rooms@.take(r as int + 1),
                                        a,
                                        b,
                                    ));
                                }
                            }
                            assert(self.in_bounds(r_x as int, r_y as int) && room_covers(
                                dungeon.rooms@[r as int],
                                r_x as int,
                                r_y as int,
                            ) && is_marker(self.tile(r_x as int, r_y as int)));
                            assert(self.room_has_marker(dungeon.rooms@[r as int]));
                            if old(self).no_markers() {
                                assert forall|i: int|
                                    0 <= i < r && (#[trigger] dungeon.rooms@[i]).items@.len()
                                        > 0 implies self.room_has_marker(dungeon.rooms@[i]) by {
                                    lemma_room_marker_preserved(
                                        pre,
                                        *self,
                                        dungeon.rooms@[i],
                                    );
                                }
                            }
                        }
                        placed = true;
                    } else {
                        proof {
                            // On a marker-free input grid the first item of
                            // a room cannot meet a marker: its interior is
                            // still clean, and the draw landed inside it.
                            if old(self).no_markers() && ii == 0 && !placed {
                                assert(is_marker(self.tile(r_x as int, r_y as int)));
                                assert(false);
                            }
                        }
                        loop_number -= 1;
                    }
                }
                proof {
                    if old(self).no_markers() && ii == 0 {
                        assert(placed);
                    }
                    if old(self).no_markers() && placed {
                        assert(self.room_has_marker(dungeon.rooms@[r as int]));
                    }
                }
                ii += 1;
            }
            proof {
                crate::dungeon::lemma_total_items_take_step(dungeon.rooms@, r as int);
                if old(self).no_markers() {
                    assert forall|i: int|
                        0 <= i < r + 1 && (#[trigger] dungeon.rooms@[i]).items@.len()
                            > 0 implies self.room_has_marker(dungeon.rooms@[i]) by {}
                }
            }
            r += 1;
        }
        proof {
            assert(dungeon.rooms@.take(rooms_number as int) == dungeon.rooms@);
            let written = Set::new(
                |p: (int, int)|
                    self.in_bounds(p.0, p.1) && self.tile(p.0, p.1) != old(self).tile(p.0, p.1),
            );
            assert forall|p: (int, int)| written.contains(p) <==> changed.contains(p) by {
                if changed.contains(p) {
                    assert(self.in_bounds(p.0, p.1));
                }
            }
            assert(written =~= changed);
        }
    }

    /// Rasterizes a completed layout into the tile grid: carve rooms, carve
    /// corridors with their doors, prune walls that touch no floor, prune
    /// doors stranded by the wall pass, then drop the rooms' items. The
    /// finished grid holds no transient marker, and every door cell that
    /// remains sits in one of the two valid flank patterns.
    pub fn create_map(&mut self, d: &Dungeon, rng: &mut DungeonRng) -> (map: &Vec<
        Vec<DungeonTile>,
    >)
        requires
            old(self).wf(),
            d.wf(),
            forall|i: int| 0 <= i < d.rooms@.len()
                ==> (#[trigger] d.rooms@[i]).x + d.rooms@[i].width < old(self).map_width
                    && d.rooms@[i].y + d.rooms@[i].height <= old(self).map_height,
        ensures
            final(self).wf(),
            final(self).map_width == old(self).map_width,
            final(self).map_height == old(self).map_height,
            map@ == final(self).map@,
            forall|a: int, b: int|
                final(self).in_bounds(a, b) ==> #[trigger] final(self).tile(a, b)
                    != DungeonTile::TileDummy,
            forall|a: int, b: int|
                final(self).in_bounds(a, b) && is_door_tile(#[trigger] final(self).tile(a, b))
                    ==> final(self).valid_door_position(a, b),
            (forall|a: int, b: int|
                old(self).in_bounds(a, b) ==> !is_door_tile(#[trigger] old(self).tile(a, b)))
                ==> forall|a: int, b: int|
                final(self).in_bounds(a, b) && is_door_tile(#[trigger] final(self).tile(a, b))
                    ==> from_door_justified(*d, a, b, final(self).tile(a, b)) || to_door_justified(
                    *d,
                    a,
                    b,
                    final(self).tile(a, b),
                ),
            forall|a: int, b: int|
                final(self).in_bounds(a, b) && some_room_covers(d.rooms@, a, b)
                    ==> !is_wallish(#[trigger] final(self).tile(a, b)),
            forall|i: int| 0 <= i < d.corridors@.len() ==> final(self).corridor_carved(*d, i),
    {
        self.create_rooms(&d);
        let ghost m1 = *self;
        self.create_corridors(&d, rng);
        let ghost m2 = *self;
        self.remove_redundant_walls();
        let ghost m3 = *self;
        self.remove_not_useful_doors();
        let ghost m4 = *self;
        self.create_items(&d, rng);

        proof {
            // Room interiors hold no wall matter from the carving on, so
            // the item pass can only write over floor, doors or markers.
            assert forall|a: int, b: int|
                m4.in_bounds(a, b) && some_room_covers(d.rooms@, a, b) implies !is_wallish(
                m4.tile(a, b),
            ) by {
                assert(m1.tile(a, b) == DungeonTile::TileEmpty);
                assert(m2.tile(a, b) == m1.tile(a, b) || m2.tile(a, b) == DungeonTile::TileEmpty
                    || from_door_justified(*d, a, b, m2.tile(a, b)) || to_door_justified(
                    *d,
                    a,
                    b,
                    m2.tile(a, b),
                ));
                assert(!is_wallish(m2.tile(a, b)));
                assert(!is_wallish(m3.tile(a, b)));
                assert(!is_wallish(m4.tile(a, b)));
            }
            assert(self.same_wallishness(m4)) by {
                assert forall|a: int, b: int| self.in_bounds(a, b) implies is_wallish(
                    #[trigger] self.tile(a, b),
                ) == is_wallish(m4.tile(a, b)) by {}
            }
            assert forall|a: int, b: int|
                self.in_bounds(a, b) && is_door_tile(
                    #[trigger] self.tile(a, b),
                ) implies self.valid_door_position(a, b) by {
                assert(self.tile(a, b) == m4.tile(a, b));
                assert(m4.valid_door_position(a, b));
                lemma_neighborhood_same(*self, m4, a, b);
            }
            assert forall|a: int, b: int| self.in_bounds(a, b) implies #[trigger] self.tile(a, b)
                != DungeonTile::TileDummy by {
                assert(m3.tile(a, b) != DungeonTile::TileDummy);
                assert(m4.tile(a, b) == m3.tile(a, b) || m4.tile(a, b) == DungeonTile::TileEmpty);
            }
            assert forall|a: int, b: int|
                m3.in_bounds(a, b) && is_wallish(#[trigger] m3.tile(a, b)) implies is_wallish(
                m2.tile(a, b),
            ) by {}
            assert forall|a: int, b: int|
                m4.in_bounds(a, b) && is_wallish(#[trigger] m4.tile(a, b)) implies is_wallish(
                m3.tile(a, b),
            ) by {}
            assert forall|a: int, b: int|
                self.in_bounds(a, b) && is_wallish(#[trigger] self.tile(a, b)) implies is_wallish(
                m4.tile(a, b),
            ) by {}
            assert forall|i: int| 0 <= i < d.corridors@.len() implies self.corridor_carved(
                *d,
                i,
            ) by {
                assert(m2.corridor_carved(*d, i));
                lemma_corridor_carved_preserved(m2, m3, *d, i);
                lemma_corridor_carved_preserved(m3, m4, *d, i);
                lemma_corridor_carved_preserved(m4, *self, *d, i);
            }
            if forall|a: int, b: int|
                old(self).in_bounds(a, b) ==> !is_door_tile(#[trigger] old(self).tile(a, b)) {
                assert forall|a: int, b: int|
                    self.in_bounds(a, b) && is_door_tile(
                        #[trigger] self.tile(a, b),
                    ) implies from_door_justified(*d, a, b, self.tile(a, b)) || to_door_justified(
                    *d,
                    a,
                    b,
                    self.tile(a, b),
                ) by {
                    assert(self.tile(a, b) == m4.tile(a, b));
                    assert(m4.tile(a, b) == m3.tile(a, b));
                    assert(m3.tile(a, b) == m2.tile(a, b));
                    assert(!is_door_tile(old(self).tile(a, b)));
                    assert(!is_door_tile(m1.tile(a, b)));
                    assert(m2.tile(a, b) == m1.tile(a, b) || m2.tile(a, b)
                        == DungeonTile::TileEmpty || from_door_justified(*d, a, b, m2.tile(a, b))
                        || to_door_justified(*d, a, b, m2.tile(a, b)));
                }
            }
        }
        &self.map
    }
}

/// The room a corridor starts from, resolved through the sequential ids of
/// a well-formed layout.
pub open spec fn corridor_from_room(d: Dungeon, c: Corridor) -> Room {
    d.rooms@[c.from_room_id as int]
}

/// The room a corridor leads to.
pub open spec fn corridor_to_room(d: Dungeon, c: Corridor) -> Room {
    d.rooms@[c.to_room_id as int]
}

/// The column a corridor's horizontal run starts at: the from-room's right
/// edge when that edge lies at or left of the to-room's left edge, else the
/// to-room's left edge.
pub open spec fn corridor_left_x(d: Dungeon, c: Corridor) -> int {
    let from = corridor_from_room(d, c);
    let to = corridor_to_room(d, c);
    if from.x + from.width <= to.x {
        from.x + from.width
    } else {
        to.x as int
    }
}

/// The column a corridor's horizontal run ends at; never left of
/// `corridor_left_x`.
pub open spec fn corridor_right_x(d: Dungeon, c: Corridor) -> int {
    let from = corridor_from_room(d, c);
    let to = corridor_to_room(d, c);
    if from.x + from.width > to.x {
        from.x + from.width
    } else {
        to.x as int
    }
}

/// The room whose edge a corridor's horizontal run starts from; the run's
/// row is drawn from this room's vertical extent.
pub open spec fn corridor_left_room(d: Dungeon, c: Corridor) -> Room {
    let from = corridor_from_room(d, c);
    let to = corridor_to_room(d, c);
    if from.x + from.width <= to.x {
        from
    } else {
        to
    }
}

/// The room whose edge a corridor's horizontal run ends at; the vertical
/// run's far row is drawn from this room's vertical extent.
pub open spec fn corridor_right_room(d: Dungeon, c: Corridor) -> Room {
    let from = corridor_from_room(d, c);
    let to = corridor_to_room(d, c);
    if from.x + from.width > to.x {
        from
    } else {
        to
    }
}

/// Corridor `i` accounts for a from-side door tile `t` at cell `(x, y)`:
/// its horizontal run is long enough for a door, the cell is the second
/// carved one of a row within the left room's vertical extent, and the
/// corridor record carries a from-door of that state.
pub open spec fn from_door_justified_at(d: Dungeon, i: int, x: int, y: int, t: DungeonTile) -> bool {
    let c = d.corridors@[i];
    corridor_right_x(d, c) - corridor_left_x(d, c) >= 3 && x == corridor_left_x(d, c) + 1
        && corridor_left_room(d, c).y <= y < corridor_left_room(d, c).y + corridor_left_room(
        d,
        c,
    ).height && (c.from_room_door matches Some(door) && t == door_tile_for(door))
}

/// Some corridor accounts for a from-side door tile `t` at cell `(x, y)`.
pub open spec fn from_door_justified(d: Dungeon, x: int, y: int, t: DungeonTile) -> bool {
    exists|i: int| 0 <= i < d.corridors@.len() && #[trigger] from_door_justified_at(d, i, x, y, t)
}

/// The rows `yl` and `yr`, drawn from the corridor's two rooms' vertical
/// extents, admit a to-side door at row `y`: the vertical run they span is
/// at least three cells, and `y` sits two cells before its far end.
pub open spec fn to_door_rows_ok(d: Dungeon, c: Corridor, yl: int, yr: int, y: int) -> bool {
    corridor_left_room(d, c).y <= yl < corridor_left_room(d, c).y + corridor_left_room(d, c).height
        && corridor_right_room(d, c).y <= yr < corridor_right_room(d, c).y + corridor_right_room(
        d,
        c,
    ).height && (if yl < yr {
        yr - yl >= 3 && y == yr - 2
    } else {
        yl - yr >= 3 && y == yr + 2
    })
}

/// Corridor `i` accounts for a to-side door tile `t` at cell `(x, y)`: the
/// column is the terminal one of its horizontal run, some admissible pair
/// of drawn rows puts the door cell at row `y`, and the corridor record
/// carries a to-door of that state.
pub open spec fn to_door_justified_at(d: Dungeon, i: int, x: int, y: int, t: DungeonTile) -> bool {
    let c = d.corridors@[i];
    x == corridor_right_x(d, c) && (c.to_room_door matches Some(door) && t == door_tile_for(door))
        && exists|yl: int, yr: int| #[trigger] to_door_rows_ok(d, c, yl, yr, y)
}

/// Some corridor accounts for a to-side door tile `t` at cell `(x, y)`.
pub open spec fn to_door_justified(d: Dungeon, x: int, y: int, t: DungeonTile) -> bool {
    exists|i: int| 0 <= i < d.corridors@.len() && #[trigger] to_door_justified_at(d, i, x, y, t)
}

/// Whatever rows are drawn from the two rooms' vertical extents, they lie
/// at least three apart, so the vertical run is always long enough for a
/// to-side door.
pub open spec fn rows_always_apart(d: Dungeon, c: Corridor) -> bool {
    corridor_left_room(d, c).y + corridor_left_room(d, c).height + 2 <= corridor_right_room(
        d,
        c,
    ).y || corridor_right_room(d, c).y + corridor_right_room(d, c).height + 2 <= corridor_left_room(
        d,
        c,
    ).y
}

/// Inside a well-formed layout a cell lies in at most one room: interiors
/// of distinct rooms are disjoint because their bounding boxes already
/// fail the inclusive-edge overlap test.
proof fn lemma_one_room_per_cell(d: Dungeon, i: int, j: int, x: int, y: int)
    requires
        d.wf(),
        0 <= i < d.rooms@.len(),
        0 <= j < d.rooms@.len(),
        i != j,
        room_covers(d.rooms@[i], x, y),
    ensures
        !room_covers(d.rooms@[j], x, y),
{
    assert(!rooms_overlap(d.rooms@[i], d.rooms@[j]));
}

/// A pass that leaves every marker cell untouched keeps a room's marker.
proof fn lemma_room_marker_preserved(pre: DungeonMap, cur: DungeonMap, r: Room)
    requires
        pre.map_width == cur.map_width,
        pre.map_height == cur.map_height,
        forall|a: int, b: int|
            pre.in_bounds(a, b) && is_marker(#[trigger] pre.tile(a, b)) ==> cur.tile(a, b)
                == pre.tile(a, b),
        pre.room_has_marker(r),
    ensures
        cur.room_has_marker(r),
{
    let (a, b) = choose|a: int, b: int|
        pre.in_bounds(a, b) && #[trigger] room_covers(r, a, b) && is_marker(pre.tile(a, b));
    assert(cur.in_bounds(a, b) && room_covers(r, a, b) && is_marker(cur.tile(a, b)));
}

/// A pass that never introduces wall matter keeps a carved corridor open:
/// the same pair of drawn rows still witnesses the open horizontal run and
/// the open terminal column.
proof fn lemma_corridor_carved_preserved(pre: DungeonMap, cur: DungeonMap, d: Dungeon, i: int)
    requires
        pre.map_width == cur.map_width,
        pre.map_height == cur.map_height,
        forall|a: int, b: int|
            cur.in_bounds(a, b) && is_wallish(#[trigger] cur.tile(a, b)) ==> is_wallish(
                pre.tile(a, b),
            ),
        pre.corridor_carved(d, i),
    ensures
        cur.corridor_carved(d, i),
{
    let c = d.corridors@[i];
    let (yl, yr) = choose|yl: int, yr: int|
        corridor_left_room(d, c).y <= yl < corridor_left_room(d, c).y + corridor_left_room(
            d,
            c,
        ).height && corridor_right_room(d, c).y <= yr < corridor_right_room(d, c).y
            + corridor_right_room(d, c).height && pre.run_open_at_row(d, i, yl)
            && #[trigger] pre.column_open_between(d, i, yl, yr);
    assert forall|x: int|
        corridor_left_x(d, c) <= x <= corridor_right_x(d, c) implies cur.in_bounds(x, yl)
        && !is_wallish(#[trigger] cur.tile(x, yl)) by {
        assert(pre.in_bounds(x, yl) && !is_wallish(pre.tile(x, yl)));
    }
    assert(cur.run_open_at_row(d, i, yl));
    assert forall|y: int|
        (if yl <= yr {
            yl <= y <= yr
        } else {
            yr <= y <= yl
        }) implies cur.in_bounds(corridor_right_x(d, c), y) && !is_wallish(
        #[trigger] cur.tile(corridor_right_x(d, c), y),
    ) by {
        assert(pre.in_bounds(corridor_right_x(d, c), y) && !is_wallish(
            pre.tile(corridor_right_x(d, c), y),
        ));
    }
    assert(cur.column_open_between(d, i, yl, yr));
}

/// Two grids that agree on dimensions and wall matter agree on every
/// border-aware wall probe.
proof fn lemma_wall_at_same(a: DungeonMap, b: DungeonMap, x: int, y: int)
    requires
        a.same_wallishness(b),
    ensures
        a.wall_at(x, y) == b.wall_at(x, y),
{
    if a.in_bounds(x, y) {
        assert(is_wallish(a.tile(x, y)) == is_wallish(b.tile(x, y)));
    }
}

/// Two grids that agree on dimensions and wall matter agree on the
/// nine-cell wall test and on door validity, everywhere.
proof fn lemma_neighborhood_same(a: DungeonMap, b: DungeonMap, x: int, y: int)
    requires
        a.same_wallishness(b),
    ensures
        a.walls_around(x, y) == b.walls_around(x, y),
        a.valid_door_position(x, y) == b.valid_door_position(x, y),
{
    lemma_wall_at_same(a, b, x, y);
    lemma_wall_at_same(a, b, x - 1, y);
    lemma_wall_at_same(a, b, x + 1, y);
    lemma_wall_at_same(a, b, x, y + 1);
    lemma_wall_at_same(a, b, x, y - 1);
    lemma_wall_at_same(a, b, x - 1, y - 1);
    lemma_wall_at_same(a, b, x + 1, y + 1);
    lemma_wall_at_same(a, b, x - 1, y + 1);
    lemma_wall_at_same(a, b, x + 1, y - 1);
}

} // verus!
