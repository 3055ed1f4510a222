use vstd::prelude::*;
use crate::corridor::{door_slots, doors_in, Corridor};
use crate::door::Door;
use crate::item::{Item, ItemType};
use crate::rng::DungeonRng;
use crate::room::{room_within_bounds, rooms_overlap, Room};

verus! {

/// Freeform candidate boxes are expanded by this margin before the overlap
/// test when rooms must stay apart.
const SPACE_BETWEEN_ROOMS: u16 = 3;

/// Chance, in percent, that a corridor gets a door at all.
const DOOR_CREATION_CHANCE: u64 = 75;

/// Chance, in percent, that a corridor with a door gets one at both ends.
const DOORS_ON_BOTH_SIDES_CHANCE: u64 = 40;

/// What `generate` returns for the given request, decided by its parameter
/// checks alone, in order: a zero room count, then a room size that leaves
/// no margin inside the dungeon, then a room size under three units.
pub open spec fn generation_outcome(
    max_rooms: u16,
    max_dungeon_width: u16,
    max_dungeon_height: u16,
    max_room_width: u16,
    max_room_height: u16,
) -> Result<(), GenerationError> {
    if max_rooms == 0 {
        Err(GenerationError::InvalidRoomCount)
    } else if max_room_width + 2 >= max_dungeon_width || max_room_height + 2
        >= max_dungeon_height {
        Err(GenerationError::RoomTooLargeForDungeon)
    } else if max_room_width < 3 || max_room_height < 3 {
        Err(GenerationError::RoomTooSmall)
    } else {
        Ok(())
    }
}

/// How many universal keys an item pass drops: one per counted door slot,
/// when keys are requested and at least one door exists.
pub open spec fn key_items_added(keys: bool, cs: Seq<Corridor>) -> nat {
    if keys && doors_in(cs) > 0 {
        doors_in(cs)
    } else {
        0nat
    }
}

/// Total number of items over a sequence of rooms.
pub open spec fn total_items(rooms: Seq<Room>) -> nat
    decreases rooms.len(),
{
    if rooms.len() == 0 {
        0nat
    } else {
        total_items(rooms.drop_last()) + rooms.last().items@.len()
    }
}

/// An item the populating pass appended: ids start at zero with the
/// universal keys, which carry the key kind and description exactly; the
/// random items follow with the remaining ids and a weapon, armor or
/// potion kind.
pub open spec fn added_item_ok(it: Item, key_count: int) -> bool {
    0 <= it.id && (it.id < key_count <==> it.item_type == ItemType::Key(0)) && (it.id < key_count
        ==> it.desc@ == "Universal Key"@) && (it.id >= key_count ==> (it.item_type
        == ItemType::Weapon || it.item_type == ItemType::Armor || it.item_type
        == ItemType::Potion))
}

/// Position `i` holds the first room in creation order that carries `id`.
pub open spec fn first_room_with_id(rooms: Seq<Room>, id: usize, i: int) -> bool {
    0 <= i < rooms.len() && rooms[i].id == id && (forall|j: int|
        0 <= j < i ==> (#[trigger] rooms[j]).id != id)
}

/// The room-placement and connection strategy.
#[derive(Clone, Copy, PartialEq, Eq, Structural, Debug)]
pub enum DungeonType {
    /// One big basement: freeform room scatter, one random corridor per room.
    Basement,
    /// Freeform scatter with extra spacing; consecutive rooms form a path.
    SeparateRooms,
    /// Rooms aligned to a coarse grid; consecutive rooms form a path.
    Grid,
}

/// A validation failure detected before any mutation of the layout.
#[derive(Clone, Copy, PartialEq, Eq, Structural, Debug)]
pub enum GenerationError {
    /// `generate` was asked for zero rooms.
    InvalidRoomCount,
    /// The maximum room size does not leave the required margin inside the
    /// dungeon bounds.
    RoomTooLargeForDungeon,
    /// The maximum room size is below the workable minimum of three units.
    RoomTooSmall,
    /// `add_doors` was called on a layout with exactly one room.
    SingleRoomLayout,
}

impl GenerationError {
    /// A human-readable account of the failure.
    pub fn message(&self) -> (s: &'static str)
        ensures
            match self {
                GenerationError::InvalidRoomCount => s@ == "Rooms number must not be a zero!"@,
                GenerationError::RoomTooLargeForDungeon => s@ == "Room size mismatch dungeon size!"@,
                GenerationError::RoomTooSmall => s@ == "Room size too small (less than three)!"@,
                GenerationError::SingleRoomLayout => s@
                    == "There's only one room in the dungeon. No door is needed."@,
            },
    {
        match self {
            GenerationError::InvalidRoomCount => "Rooms number must not be a zero!",
            GenerationError::RoomTooLargeForDungeon => "Room size mismatch dungeon size!",
            GenerationError::RoomTooSmall => "Room size too small (less than three)!",
            GenerationError::SingleRoomLayout => "There's only one room in the dungeon. No door is needed.",
        }
    }
}

/// The complete layout: every room, corridor, door and item of a dungeon.
pub struct Dungeon {
    pub rooms: Vec<Room>,
    pub corridors: Vec<Corridor>,
}

impl Dungeon {
    /// Room ids equal their position in the room list.
    pub open spec fn rooms_indexed(self) -> bool {
        forall|i: int| 0 <= i < self.rooms@.len() ==> #[trigger] self.rooms@[i].id == i
    }

    /// Corridor ids equal their position in the corridor list.
    pub open spec fn corridors_indexed(self) -> bool {
        forall|i: int| 0 <= i < self.corridors@.len() ==> #[trigger] self.corridors@[i].id == i
    }

    /// Every room is at least 2 units wide and tall.
    pub open spec fn rooms_sized(self) -> bool {
        forall|i: int| 0 <= i < self.rooms@.len()
            ==> #[trigger] self.rooms@[i].width >= 2 && self.rooms@[i].height >= 2
    }

    /// No two rooms' bounding boxes pass the inclusive-edge overlap test.
    pub open spec fn rooms_disjoint(self) -> bool {
        forall|i: int, j: int|
            0 <= i < self.rooms@.len() && 0 <= j < self.rooms@.len() && i != j
                ==> !#[trigger] rooms_overlap(self.rooms@[i], self.rooms@[j])
    }

    /// Every corridor joins two distinct, existing rooms.
    pub open spec fn corridors_connect(self) -> bool {
        forall|i: int| 0 <= i < self.corridors@.len()
            ==> (#[trigger] self.corridors@[i]).from_room_id != self.corridors@[i].to_room_id
                && self.corridors@[i].from_room_id < self.rooms@.len()
                && self.corridors@[i].to_room_id < self.rooms@.len()
    }

    /// The layout is addressed in 16-bit grid units, so its collections
    /// stay small enough for every counter in the library to fit `usize`.
    pub open spec fn bounded(self) -> bool {
        self.rooms@.len() <= 0xFFFF && self.corridors@.len() <= 0xFFFF
    }

    /// A well-formed layout, as the generator commits it.
    pub open spec fn wf(self) -> bool {
        self.rooms_indexed() && self.corridors_indexed() && self.rooms_sized()
            && self.rooms_disjoint() && self.corridors_connect() && self.bounded()
    }

    pub fn new() -> (d: Self)
        ensures
            d.rooms@.len() == 0,
            d.corridors@.len() == 0,
            d.wf(),
    {
        Self { rooms: Vec::new(), corridors: Vec::new() }
    }

    /// Gets number of rooms.
    pub fn get_rooms_number(&self) -> (n: usize)
        ensures
            n == self.rooms@.len(),
    {
        self.rooms.len()
    }

    /// Gets number of corridors.
    pub fn get_corridors_number(&self) -> (n: usize)
        ensures
            n == self.corridors@.len(),
    {
        self.corridors.len()
    }

    /// Gets a room by its index in the room list.
    /// * `room_idx` - Room index
    pub fn get_room(&self, room_idx: usize) -> (r: Option<&Room>)
        ensures
            match r {
                Some(room) => room_idx < self.rooms@.len() && *room == self.rooms@[room_idx as int],
                None => room_idx >= self.rooms@.len(),
            },
    {
        if room_idx < self.rooms.len() {
            Some(&self.rooms[room_idx])
        } else {
            None
        }
    }

    /// Gets a room by its id: the first room in creation order that carries
    /// it, or nothing when no room does.
    /// * `room_id` - Room id
    pub fn get_room_by_id(&self, room_id: usize) -> (r: Option<&Room>)
        ensures
            match r {
                Some(room) => room.id == room_id && exists|i: int|
                    #[trigger] first_room_with_id(self.rooms@, room_id, i) && *room
                        == self.rooms@[i],
                None => forall|i: int| 0 <= i < self.rooms@.len()
                    ==> (#[trigger] self.rooms@[i]).id != room_id,
            },
    {
        let mut i: usize = 0;
        while i < self.rooms.len()
            invariant
                i <= self.rooms@.len(),
                forall|j: int| 0 <= j < i ==> (#[trigger] self.rooms@[j]).id != room_id,
            decreases self.rooms@.len() - i,
        {
            if self.rooms[i].id == room_id {
                proof {
                    assert(first_room_with_id(self.rooms@, room_id, i as int));
                }
                return Some(&self.rooms[i]);
            }
            i += 1;
        }
        None
    }

    /// Gets a corridor by its index.
    /// * `corridor_idx` - A corridor index
    pub fn get_corridor(&self, corridor_idx: usize) -> (r: Option<&Corridor>)
        ensures
            match r {
                Some(c) => corridor_idx < self.corridors@.len()
                    && *c == self.corridors@[corridor_idx as int],
                None => corridor_idx >= self.corridors@.len(),
            },
    {
        if corridor_idx < self.corridors.len() {
            Some(&self.corridors[corridor_idx])
        } else {
            None
        }
    }

    /// Counts how many doors exist in the dungeon: the filled door slots
    /// summed over all corridors, exactly.
    pub fn get_doors_number(&self) -> (n: usize)
        requires
            self.corridors@.len() <= usize::MAX / 2,
        ensures
            n == doors_in(self.corridors@),
    {
        let mut num: usize = 0;
        let mut i: usize = 0;
        while i < self.corridors.len()
            invariant
                i <= self.corridors@.len(),
                self.corridors@.len() <= usize::MAX / 2,
                num == doors_in(self.corridors@.take(i as int)),
                num <= 2 * i,
            decreases self.corridors@.len() - i,
        {
            proof {
                lemma_doors_in_take_step(self.corridors@, i as int);
            }
            let c = &self.corridors[i];
            if c.from_room_door.is_some() {
                num += 1;
            }
            if c.to_room_door.is_some() {
                num += 1;
            }
            i += 1;
        }
        proof {
            assert(self.corridors@.take(self.corridors@.len() as int) == self.corridors@);
        }
        num
    }

    /// Gets all corridors connected to the specified room, in creation
    /// order.
    /// * `room` - A room to which all found corridors are connected to
    pub fn get_room_corridors(&self, room: &Room) -> (r: Vec<&Corridor>)
        ensures
            r@.map_values(|c: &Corridor| *c) == self.corridors@.filter(
                |c: Corridor| c.from_room_id == room.id || c.to_room_id == room.id,
            ),
    {
        let ghost pred = |c: Corridor| c.from_room_id == room.id || c.to_room_id == room.id;
        let mut corridor_list: Vec<&Corridor> = Vec::new();
        let mut i: usize = 0;
        proof {
            assert(corridor_list@.map_values(|c: &Corridor| *c)
                == self.corridors@.take(0).filter(pred));
        }
        while i < self.corridors.len()
            invariant
                i <= self.corridors@.len(),
                corridor_list@.map_values(|c: &Corridor| *c)
                    == self.corridors@.take(i as int).filter(pred),
                pred == (|c: Corridor| c.from_room_id == room.id || c.to_room_id == room.id),
            decreases self.corridors@.len() - i,
        {
            proof {
                lemma_filter_take_step(self.corridors@, i as int, pred);
            }
            let c = &self.corridors[i];
            if c.from_room_id == room.id || c.to_room_id == room.id {
                corridor_list.push(c);
            }
            i += 1;
        }
        proof {
            assert(self.corridors@.take(self.corridors@.len() as int) == self.corridors@);
        }
        corridor_list
    }

    /// Check if the given room intersects with an existing room of the
    /// dungeon, under the inclusive-edge overlap test.
    /// * `room` - A reference to the room we test the intersection with
    fn is_intersect_with_another_room(&self, room: &Room) -> (r: bool)
        ensures
            r == exists|i: int|
                0 <= i < self.rooms@.len() && rooms_overlap(*room, #[trigger] self.rooms@[i]),
    {
        let x1 = room.x as usize;
        let y1 = room.y as usize;
        let x2 = x1 + room.width as usize;
        let y2 = y1 + room.height as usize;

        let mut i: usize = 0;
        while i < self.rooms.len()
            invariant
                i <= self.rooms@.len(),
                x1 == room.x && y1 == room.y,
                x2 == room.x + room.width && y2 == room.y + room.height,
                forall|j: int| 0 <= j < i ==> !rooms_overlap(*room, #[trigger] self.rooms@[j]),
            decreases self.rooms@.len() - i,
        {
            let other = &self.rooms[i];
            let xr1 = other.x as usize;
            let yr1 = other.y as usize;
            let xr2 = xr1 + other.width as usize;
            let yr2 = yr1 + other.height as usize;

            if x1 <= xr2 && x2 >= xr1 && y1 <= yr2 && y2 >= yr1 {
                return true;
            }
            i += 1;
        }
        false
    }

    /// Place up to `max_rooms` rooms aligned to a coarse grid of cells sized
    /// `max_room_width` by `max_room_height`: up to ten attempts per slot to
    /// draw an interior cell sharing no row or column with an already chosen
    /// one, one room per chosen cell, aligned to the cell's top-left corner.
    /// A dungeon too coarse for interior cells gets no rooms at all.
    fn generate_grid_rooms(
        &mut self,
        max_rooms: u16,
        max_dungeon_width: u16,
        max_dungeon_height: u16,
        max_room_width: u16,
        max_room_height: u16,
        rng: &mut DungeonRng,
    )
        requires
            old(self).rooms@.len() == 0,
            3 <= max_room_width,
            max_room_width + 2 < max_dungeon_width,
            3 <= max_room_height,
            max_room_height + 2 < max_dungeon_height,
        ensures
            final(self).corridors == old(self).corridors,
            final(self).rooms@.len() <= max_rooms,
            final(self).rooms_indexed(),
            final(self).rooms_sized(),
            final(self).rooms_disjoint(),
            forall|i: int| 0 <= i < final(self).rooms@.len()
                ==> 1 <= (#[trigger] final(self).rooms@[i]).x
                    && final(self).rooms@[i].x + final(self).rooms@[i].width < max_dungeon_width
                    && 1 <= final(self).rooms@[i].y
                    && final(self).rooms@[i].y + final(self).rooms@[i].height < max_dungeon_height
                    && final(self).rooms@[i].items@.len() == 0
                    && final(self).rooms@[i].width == max_room_width - 1
                    && final(self).rooms@[i].height == max_room_height - 1
                    && final(self).rooms@[i].x as int % max_room_width as int == 0
                    && final(self).rooms@[i].y as int % max_room_height as int == 0,
            max_rooms >= 1 && max_dungeon_width as int / max_room_width as int >= 3
                && max_dungeon_height as int / max_room_height as int >= 3 ==> final(self).rooms@.len() >= 1,
    {
        let max_grid_y = (max_dungeon_height / max_room_height) as usize;
        let max_grid_x = (max_dungeon_width / max_room_width) as usize;
        let mrw = max_room_width as usize;
        let mrh = max_room_height as usize;

        proof {
            lemma_div_times_le(max_dungeon_width as int, max_room_width as int);
            lemma_div_times_le(max_dungeon_height as int, max_room_height as int);
            assert(max_grid_x * mrw <= max_dungeon_width);
            assert(max_grid_y * mrh <= max_dungeon_height);
        }

        if max_grid_x < 3 || max_grid_y < 3 {
            // No interior cell exists to draw from; the layout stays empty,
            // which callers must tolerate like any other under-filled result.
            return ;
        }
        let mut grid_x: Vec<bool> = Vec::new();
        let mut grid_y: Vec<bool> = Vec::new();
        let mut k: usize = 0;
        while k < max_grid_x
            invariant
                k <= max_grid_x,
                grid_x@.len() == k,
                forall|j: int| 0 <= j < k ==> !grid_x@[j],
            decreases max_grid_x - k,
        {
            grid_x.push(false);
            k += 1;
        }
        k = 0;
        while k < max_grid_y
            invariant
                k <= max_grid_y,
                grid_y@.len() == k,
                forall|j: int| 0 <= j < k ==> !grid_y@[j],
            decreases max_grid_y - k,
        {
            grid_y.push(false);
            k += 1;
        }

        let ghost mut cols: Seq<int> = Seq::empty();
        let ghost mut rows: Seq<int> = Seq::empty();

        let mut slot: u16 = 0;
        while slot < max_rooms
            invariant
                slot <= max_rooms,
                self.corridors == old(self).corridors,
                grid_x@.len() == max_grid_x,
                grid_y@.len() == max_grid_y,
                3 <= max_grid_x,
                3 <= max_grid_y,
                mrw == max_room_width,
                mrh == max_room_height,
                3 <= mrw,
                3 <= mrh,
                max_grid_x * mrw <= max_dungeon_width,
                max_grid_y * mrh <= max_dungeon_height,
                self.rooms@.len() <= slot,
                slot > 0 ==> self.rooms@.len() >= 1,
                cols.len() == self.rooms@.len(),
                rows.len() == self.rooms@.len(),
                forall|k: int| 0 <= k < max_grid_x && #[trigger] grid_x@[k]
                    ==> exists|i: int| 0 <= i < cols.len() && cols[i] == k,
                forall|k: int| 0 <= k < max_grid_y && #[trigger] grid_y@[k]
                    ==> exists|i: int| 0 <= i < rows.len() && rows[i] == k,
                forall|i: int| 0 <= i < self.rooms@.len()
                    ==> 1 <= #[trigger] cols[i] < max_grid_x - 1 && 1 <= rows[i] < max_grid_y - 1
                        && grid_x@[cols[i]] && grid_y@[rows[i]]
                        && self.rooms@[i].x == cols[i] * mrw && self.rooms@[i].y == rows[i] * mrh
                        && self.rooms@[i].width == mrw - 1 && self.rooms@[i].height == mrh - 1
                        && self.rooms@[i].id == i && self.rooms@[i].items@.len() == 0,
                self.rooms_disjoint(),
            decreases max_rooms - slot,
        {
            let ghost start_len = self.rooms@.len();
            let mut count: u16 = 10;
            let mut chosen = false;
            while count > 0 && !chosen
                invariant
                    self.corridors == old(self).corridors,
                    grid_x@.len() == max_grid_x,
                    grid_y@.len() == max_grid_y,
                    3 <= max_grid_x,
                    3 <= max_grid_y,
                    mrw == max_room_width,
                    mrh == max_room_height,
                    3 <= mrw,
                    3 <= mrh,
                    max_grid_x * mrw <= max_dungeon_width,
                    max_grid_y * mrh <= max_dungeon_height,
                    start_len <= slot,
                    chosen ==> self.rooms@.len() == start_len + 1,
                    !chosen ==> self.rooms@.len() == start_len,
                    start_len == 0 && !chosen ==> count == 10,
                    cols.len() == self.rooms@.len(),
                    rows.len() == self.rooms@.len(),
                    forall|k: int| 0 <= k < max_grid_x && #[trigger] grid_x@[k]
                        ==> exists|i: int| 0 <= i < cols.len() && cols[i] == k,
                    forall|k: int| 0 <= k < max_grid_y && #[trigger] grid_y@[k]
                        ==> exists|i: int| 0 <= i < rows.len() && rows[i] == k,
                    forall|i: int| 0 <= i < self.rooms@.len()
                        ==> 1 <= #[trigger] cols[i] < max_grid_x - 1 && 1 <= rows[i] < max_grid_y
                            - 1 && grid_x@[cols[i]] && grid_y@[rows[i]]
                            && self.rooms@[i].x == cols[i] * mrw && self.rooms@[i].y == rows[i]
                            * mrh && self.rooms@[i].width == mrw - 1 && self.rooms@[i].height
                            == mrh - 1 && self.rooms@[i].id == i && self.rooms@[i].items@.len()
                            == 0,
                    self.rooms_disjoint(),
                decreases count, (if chosen { 0int } else { 1int }),
            {
                let y = rng.sample(1, (max_grid_y - 1) as u64) as usize;
                let x = rng.sample(1, (max_grid_x - 1) as u64) as usize;

                if !grid_x[x] && !grid_y[y] {
                    assert(x * mrw + mrw <= max_dungeon_width && mrw <= x * mrw) by (nonlinear_arith)
                        requires
                            1 <= x,
                            x + 2 <= max_grid_x,
                            0 < mrw,
                            max_grid_x * mrw <= max_dungeon_width,
                    ;
                    assert(y * mrh + mrh <= max_dungeon_height && mrh <= y * mrh) by (nonlinear_arith)
                        requires
                            1 <= y,
                            y + 2 <= max_grid_y,
                            0 < mrh,
                            max_grid_y * mrh <= max_dungeon_height,
                    ;
                    let rx = x * mrw;
                    let ry = y * mrh;
                    let r = Room::new(
                        self.rooms.len(),
                        rx as u16,
                        ry as u16,
                        max_room_width - 1,
                        max_room_height - 1,
                    );
                    proof {
                        assert forall|i: int| 0 <= i < self.rooms@.len() implies !rooms_overlap(
                            r,
                            self.rooms@[i],
                        ) && !rooms_overlap(self.rooms@[i], r) by {
                            let ci = cols[i];
                            assert(grid_x@[ci]);
                            assert(ci != x);
                            assert((ci < x ==> ci * mrw + mrw <= x * mrw) && (x < ci ==> x * mrw
                                + mrw <= ci * mrw)) by (nonlinear_arith)
                                requires
                                    0 < mrw,
                            ;
                        }
                    }
                    let ghost pre_cols = cols;
                    let ghost pre_rows = rows;
                    let ghost pre_rooms = self.rooms@;
                    let ghost pre_grid_x = grid_x@;
                    let ghost pre_grid_y = grid_y@;
                    grid_x[x] = true;
                    grid_y[y] = true;
                    self.rooms.push(r);
                    proof {
                        cols = pre_cols.push(x as int);
                        rows = pre_rows.push(y as int);
                        assert forall|i: int| 0 <= i < self.rooms@.len() implies 1 <= (
                        #[trigger] cols[i]) < max_grid_x - 1 && 1 <= rows[i] < max_grid_y - 1
                            && grid_x@[cols[i]] && grid_y@[rows[i]] && self.rooms@[i].x == cols[i]
                            * mrw && self.rooms@[i].y == rows[i] * mrh && self.rooms@[i].width
                            == mrw - 1 && self.rooms@[i].height == mrh - 1 && self.rooms@[i].id
                            == i && self.rooms@[i].items@.len() == 0 by {
                            assert(grid_x@ == pre_grid_x.update(x as int, true));
                            assert(grid_y@ == pre_grid_y.update(y as int, true));
                            if i < pre_rooms.len() {
                                assert(1 <= pre_cols[i] < max_grid_x - 1);
                                assert(pre_grid_x[pre_cols[i]] && pre_grid_y[pre_rows[i]]);
                                assert(cols[i] == pre_cols[i] && rows[i] == pre_rows[i]);
                                assert(self.rooms@[i] == pre_rooms[i]);
                            } else {
                                assert(cols[i] == x as int && rows[i] == y as int);
                                assert(self.rooms@[i] == r);
                            }
                        }
                        assert forall|a: int, b: int|
                            0 <= a < self.rooms@.len() && 0 <= b < self.rooms@.len() && a
                                != b implies !rooms_overlap(
                            self.rooms@[a],
                            self.rooms@[b],
                        ) by {
                            if a < pre_rooms.len() && b < pre_rooms.len() {
                                assert(!rooms_overlap(pre_rooms[a], pre_rooms[b]));
                            } else if a < pre_rooms.len() {
                                assert(self.rooms@[b] == r);
                                assert(!rooms_overlap(pre_rooms[a], r));
                            } else {
                                assert(self.rooms@[a] == r);
                                assert(!rooms_overlap(r, pre_rooms[b]));
                            }
                        }
                        assert forall|k: int|
                            0 <= k < max_grid_x && #[trigger] grid_x@[k] implies exists|i: int|
                            0 <= i < cols.len() && cols[i] == k by {
                            assert(grid_x@ == pre_grid_x.update(x as int, true));
                            if k == x {
                                assert(cols[cols.len() - 1] == k);
                            } else {
                                assert(pre_grid_x[k]);
                                let i = choose|i: int| 0 <= i < pre_cols.len() && pre_cols[i] == k;
                                assert(cols[i] == k);
                            }
                        }
                        assert forall|k: int|
                            0 <= k < max_grid_y && #[trigger] grid_y@[k] implies exists|i: int|
                            0 <= i < rows.len() && rows[i] == k by {
                            assert(grid_y@ == pre_grid_y.update(y as int, true));
                            if k == y {
                                assert(rows[rows.len() - 1] == k);
                            } else {
                                assert(pre_grid_y[k]);
                                let i = choose|i: int| 0 <= i < pre_rows.len() && pre_rows[i] == k;
                                assert(rows[i] == k);
                            }
                        }
                    }
                    chosen = true;
                } else {
                    count -= 1;
                }
            }
            slot += 1;
        }
        proof {
            assert forall|i: int| 0 <= i < self.rooms@.len() implies 1 <= (
            #[trigger] self.rooms@[i]).x && self.rooms@[i].x + self.rooms@[i].width
                < max_dungeon_width && 1 <= self.rooms@[i].y && self.rooms@[i].y
                + self.rooms@[i].height < max_dungeon_height && self.rooms@[i].id == i
                && self.rooms@[i].width >= 2 && self.rooms@[i].height >= 2
                && self.rooms@[i].items@.len() == 0 && self.rooms@[i].width == max_room_width - 1
                && self.rooms@[i].height == max_room_height - 1 && self.rooms@[i].x as int
                % max_room_width as int == 0 && self.rooms@[i].y as int
                % max_room_height as int == 0 by {
                let ci = cols[i];
                let ri = rows[i];
                vstd::arithmetic::div_mod::lemma_mod_multiples_basic(ci, mrw as int);
                vstd::arithmetic::div_mod::lemma_mod_multiples_basic(ri, mrh as int);
                assert(ci * mrw + mrw <= max_dungeon_width && mrw <= ci * mrw) by (nonlinear_arith)
                    requires
                        1 <= ci,
                        ci + 2 <= max_grid_x,
                        0 < mrw,
                        max_grid_x * mrw <= max_dungeon_width,
                ;
                assert(ri * mrh + mrh <= max_dungeon_height && mrh <= ri * mrh) by (nonlinear_arith)
                    requires
                        1 <= ri,
                        ri + 2 <= max_grid_y,
                        0 < mrh,
                        max_grid_y * mrh <= max_dungeon_height,
                ;
            }
        }
    }

    /// Generates a dungeon: places up to `max_rooms` non-overlapping rooms
    /// by the chosen strategy, then connects them with corridors. Placement
    /// retries each room slot up to ten times and silently skips slots whose
    /// attempts all collide, so the committed room count may fall short of
    /// the request.
    /// * `max_rooms` - Number of rooms to generate in the dungeon
    /// * `max_dungeon_width` - Max. dungeon width in internal units
    /// * `max_dungeon_height` - Max. dungeon height in internal units
    /// * `max_room_width` - Max. room width in internal units
    /// * `max_room_height` - Max room height in internal units
    pub fn generate(
        &mut self,
        max_rooms: u16,
        dungeon_type: DungeonType,
        max_dungeon_width: u16,
        max_dungeon_height: u16,
        max_room_width: u16,
        max_room_height: u16,
        rng: &mut DungeonRng,
    ) -> (res: Result<(), GenerationError>)
        requires
            old(self).rooms@.len() == 0,
            old(self).corridors@.len() == 0,
        ensures
            res == generation_outcome(
                max_rooms,
                max_dungeon_width,
                max_dungeon_height,
                max_room_width,
                max_room_height,
            ),
            res is Err ==> *final(self) == *old(self),
            res is Ok ==> final(self).wf(),
            res is Ok ==> final(self).rooms@.len() <= max_rooms,
            res is Ok && dungeon_type != DungeonType::Grid ==> final(self).rooms@.len() >= 1,
            res is Ok && dungeon_type == DungeonType::Grid && max_dungeon_width as int
                / max_room_width as int >= 3 && max_dungeon_height as int
                / max_room_height as int >= 3 ==> final(self).rooms@.len() >= 1,
            res is Ok ==> forall|i: int| 0 <= i < final(self).rooms@.len()
                ==> (#[trigger] final(self).rooms@[i]).width < max_room_width && final(self).rooms@[i].height < max_room_height && final(self).rooms@[i].items@.len() == 0,
            res is Ok && dungeon_type == DungeonType::Grid ==> forall|i: int|
                0 <= i < final(self).rooms@.len() ==> (#[trigger] final(self).rooms@[i]).width
                    == max_room_width - 1 && final(self).rooms@[i].height == max_room_height - 1
                    && final(self).rooms@[i].x as int % max_room_width as int == 0 && final(self).rooms@[i].y as int % max_room_height as int == 0,
            res is Ok ==> forall|i: int| 0 <= i < final(self).rooms@.len()
                ==> room_within_bounds(
                    #[trigger] final(self).rooms@[i],
                    max_dungeon_width as int,
                    max_dungeon_height as int,
                ) && 1 <= final(self).rooms@[i].x && final(self).rooms@[i].x
                    + final(self).rooms@[i].width < max_dungeon_width && 1 <= final(self).rooms@[i].y && final(self).rooms@[i].y + final(self).rooms@[i].height
                    < max_dungeon_height && final(self).rooms@[i].items@.len() == 0,
            res is Ok ==> forall|i: int| 0 <= i < final(self).corridors@.len()
                ==> (#[trigger] final(self).corridors@[i]).from_room_door is None && final(self).corridors@[i].to_room_door is None,
            res is Ok && dungeon_type == DungeonType::Basement ==> if max_rooms > 1 && final(self).rooms@.len() > 1 {
                &&& final(self).corridors@.len() == final(self).rooms@.len()
                &&& forall|i: int| 0 <= i < final(self).corridors@.len() ==> (#[trigger] final(self).corridors@[i]).from_room_id == i
            } else {
                final(self).corridors@.len() == 0
            },
            res is Ok && dungeon_type != DungeonType::Basement ==> if max_rooms > 1 && final(self).rooms@.len() >= 1 {
                &&& final(self).corridors@.len() == final(self).rooms@.len() - 1
                &&& forall|i: int| 0 <= i < final(self).corridors@.len() ==> (#[trigger] final(self).corridors@[i]).from_room_id == i && final(self).corridors@[i].to_room_id == i + 1
            } else {
                final(self).corridors@.len() == 0
            },
    {
        if max_rooms == 0 {
            return Err(GenerationError::InvalidRoomCount);
        }
        if max_room_width as u32 + 2 >= max_dungeon_width as u32 || max_room_height as u32 + 2
            >= max_dungeon_height as u32 {
            return Err(GenerationError::RoomTooLargeForDungeon);
        }
        if max_room_width < 3 || max_room_height < 3 {
            return Err(GenerationError::RoomTooSmall);
        }

        if dungeon_type == DungeonType::Grid {
            self.generate_grid_rooms(
                max_rooms,
                max_dungeon_width,
                max_dungeon_height,
                max_room_width,
                max_room_height,
                rng,
            );
        } else {
            let mut max_room_id: usize = 0;
            let mut slot: u16 = 0;
            while slot < max_rooms
                invariant
                    slot <= max_rooms,
                    max_room_width + 2 < max_dungeon_width,
                    max_room_height + 2 < max_dungeon_height,
                    3 <= max_room_width,
                    3 <= max_room_height,
                    self.corridors@.len() == 0,
                    max_room_id == self.rooms@.len(),
                    self.rooms@.len() <= slot,
                    slot > 0 ==> self.rooms@.len() >= 1,
                    self.rooms_indexed(),
                    self.rooms_sized(),
                    self.rooms_disjoint(),
                    forall|i: int| 0 <= i < self.rooms@.len()
                        ==> 1 <= (#[trigger] self.rooms@[i]).x && self.rooms@[i].x
                            + self.rooms@[i].width < max_dungeon_width && 1 <= self.rooms@[i].y
                            && self.rooms@[i].y + self.rooms@[i].height < max_dungeon_height
                            && self.rooms@[i].items@.len() == 0
                            && self.rooms@[i].width < max_room_width
                            && self.rooms@[i].height < max_room_height,
                decreases max_rooms - slot,
            {
                let ghost start_len = self.rooms@.len();
                let mut max_loop: u16 = 10;
                let mut placed = false;
                while max_loop > 0 && !placed
                    invariant
                        max_room_width + 2 < max_dungeon_width,
                        max_room_height + 2 < max_dungeon_height,
                        3 <= max_room_width,
                        3 <= max_room_height,
                        self.corridors@.len() == 0,
                        max_room_id == self.rooms@.len(),
                        start_len <= 0xFFFE,
                        placed ==> self.rooms@.len() == start_len + 1,
                        !placed ==> self.rooms@.len() == start_len,
                        start_len == 0 && !placed ==> max_loop == 10,
                        self.rooms_indexed(),
                        self.rooms_sized(),
                        self.rooms_disjoint(),
                        forall|i: int| 0 <= i < self.rooms@.len()
                            ==> 1 <= (#[trigger] self.rooms@[i]).x && self.rooms@[i].x
                                + self.rooms@[i].width < max_dungeon_width && 1
                                <= self.rooms@[i].y && self.rooms@[i].y + self.rooms@[i].height
                                < max_dungeon_height && self.rooms@[i].items@.len() == 0
                                && self.rooms@[i].width < max_room_width
                                && self.rooms@[i].height < max_room_height,
                    decreases max_loop, (if placed { 0int } else { 1int }),
                {
                    let x = rng.sample(
                        1,
                        (max_dungeon_width - max_room_width - 1) as u64,
                    ) as u16;
                    let y = rng.sample(
                        1,
                        (max_dungeon_height - max_room_height - 1) as u64,
                    ) as u16;
                    let w = rng.sample(2, max_room_width as u64) as u16;
                    let h = rng.sample(2, max_room_height as u64) as u16;

                    let r = Room::new(max_room_id, x, y, w, h);
                    // When rooms must stay apart, test a candidate box grown
                    // by the spacing margin, but commit the plain geometry.
                    let probe = if dungeon_type == DungeonType::SeparateRooms && x
                        >= SPACE_BETWEEN_ROOMS && y >= SPACE_BETWEEN_ROOMS {
                        Room::new(
                            max_room_id,
                            x - SPACE_BETWEEN_ROOMS,
                            y - SPACE_BETWEEN_ROOMS,
                            w + 3,
                            h + 3,
                        )
                    } else {
                        Room::new(max_room_id, x, y, w, h)
                    };

                    if !self.is_intersect_with_another_room(&probe) {
                        proof {
                            assert forall|i: int| 0 <= i < self.rooms@.len() implies !rooms_overlap(
                                r,
                                self.rooms@[i],
                            ) && !rooms_overlap(self.rooms@[i], r) by {
                                assert(!rooms_overlap(probe, self.rooms@[i]));
                            }
                        }
                        let ghost pre_rooms = self.rooms@;
                        self.rooms.push(r);
                        proof {
                            assert forall|i: int, j: int|
                                0 <= i < self.rooms@.len() && 0 <= j < self.rooms@.len() && i
                                    != j implies !rooms_overlap(
                                self.rooms@[i],
                                self.rooms@[j],
                            ) by {
                                if i < pre_rooms.len() && j < pre_rooms.len() {
                                    assert(!rooms_overlap(pre_rooms[i], pre_rooms[j]));
                                } else if i < pre_rooms.len() {
                                    assert(self.rooms@[j] == r);
                                    assert(!rooms_overlap(pre_rooms[i], r));
                                } else {
                                    assert(self.rooms@[i] == r);
                                    assert(!rooms_overlap(r, pre_rooms[j]));
                                }
                            }
                        }
                        max_room_id += 1;
                        placed = true;
                    } else {
                        max_loop -= 1;
                    }
                }
                slot += 1;
            }
        }

        let rooms_number = self.get_rooms_number();

        if max_rooms > 1 {
            let mut max_corridor_id: usize = 0;

            if dungeon_type == DungeonType::Basement {
                if rooms_number > 1 {
                    let ghost placed_rooms = self.rooms@;
                    let mut r_idx: usize = 0;
                    while r_idx < rooms_number
                        invariant
                            self.rooms@ == placed_rooms,
                            rooms_number == self.rooms@.len(),
                            1 < rooms_number <= max_rooms,
                            self.rooms_indexed(),
                            r_idx <= rooms_number,
                            max_corridor_id == r_idx,
                            self.corridors@.len() == r_idx,
                            forall|j: int| 0 <= j < r_idx
                                ==> (#[trigger] self.corridors@[j]).id == j
                                    && self.corridors@[j].from_room_id == j
                                    && self.corridors@[j].to_room_id != j
                                    && self.corridors@[j].to_room_id < rooms_number
                                    && self.corridors@[j].from_room_door is None
                                    && self.corridors@[j].to_room_door is None,
                        decreases rooms_number - r_idx,
                    {
                        let r1_id = self.rooms[r_idx].id;
                        // One other room, uniformly: draw among the others
                        // and shift past the source room itself.
                        let mut idx = rng.sample(0, (rooms_number - 1) as u64) as usize;
                        if idx >= r_idx {
                            idx += 1;
                        }
                        let r2_id = self.rooms[idx].id;

                        let corridor = Corridor::new(max_corridor_id, r1_id, r2_id, None, None);
                        self.corridors.push(corridor);
                        max_corridor_id += 1;
                        r_idx += 1;
                    }
                }
            } else {
                let ghost placed_rooms = self.rooms@;
                let mut i: usize = 0;
                while i + 1 < rooms_number
                    invariant
                        self.rooms@ == placed_rooms,
                        rooms_number == self.rooms@.len(),
                        rooms_number <= max_rooms,
                        self.rooms_indexed(),
                        rooms_number >= 1 ==> i <= rooms_number - 1,
                        rooms_number == 0 ==> i == 0,
                        max_corridor_id == i,
                        self.corridors@.len() == i,
                        forall|j: int| 0 <= j < i
                            ==> (#[trigger] self.corridors@[j]).id == j
                                && self.corridors@[j].from_room_id == j
                                && self.corridors@[j].to_room_id == j + 1
                                && self.corridors@[j].from_room_door is None
                                && self.corridors@[j].to_room_door is None,
                    decreases rooms_number - i,
                {
                    let r1_id = self.rooms[i].id;
                    let r2_id = self.rooms[i + 1].id;

                    let corridor = Corridor::new(max_corridor_id, r1_id, r2_id, None, None);
                    self.corridors.push(corridor);
                    max_corridor_id += 1;
                    i += 1;
                }
            }
        }

        Ok(())
    }

    /// Appends one item to the item list of the room at `room_idx`,
    /// leaving every other room and the corridors untouched.
    fn drop_item_into_room(&mut self, room_idx: usize, item: Item)
        requires
            room_idx < old(self).rooms@.len(),
        ensures
            final(self).corridors == old(self).corridors,
            final(self).rooms@.len() == old(self).rooms@.len(),
            final(self).rooms@[room_idx as int].items@ == old(self).rooms@[room_idx as int].items@
                .push(item),
            final(self).rooms@[room_idx as int].id == old(self).rooms@[room_idx as int].id,
            final(self).rooms@[room_idx as int].x == old(self).rooms@[room_idx as int].x,
            final(self).rooms@[room_idx as int].y == old(self).rooms@[room_idx as int].y,
            final(self).rooms@[room_idx as int].width == old(self).rooms@[room_idx as int].width,
            final(self).rooms@[room_idx as int].height == old(self).rooms@[room_idx as int].height,
            forall|j: int| 0 <= j < old(self).rooms@.len() && j != room_idx
                ==> final(self).rooms@[j] == old(self).rooms@[j],
            total_items(final(self).rooms@) == total_items(old(self).rooms@) + 1,
    {
        let room = &mut self.rooms[room_idx];
        room.items.push(item);
        proof {
            assert(self.rooms@ == old(self).rooms@.update(
                room_idx as int,
                self.rooms@[room_idx as int],
            ));
            lemma_total_items_update(
                old(self).rooms@,
                room_idx as int,
                self.rooms@[room_idx as int],
            );
        }
    }

    /// Populate chambers with items. When keys are requested and at least
    /// one door exists, one universal key per counted door slot is dropped
    /// into a uniformly chosen room; independently, either `rooms_number` or
    /// `rooms_number + 1` further items of random kind are dropped the same
    /// way. An empty layout is left untouched.
    /// * `keys` - if true the routine adds one key per existing door slot.
    ///   If false no keys will be created
    pub fn add_items(&mut self, keys: bool, rng: &mut DungeonRng)
        requires
            old(self).wf(),
        ensures
            final(self).wf(),
            final(self).corridors == old(self).corridors,
            final(self).rooms@.len() == old(self).rooms@.len(),
            forall|i: int| 0 <= i < final(self).rooms@.len()
                ==> (#[trigger] final(self).rooms@[i]).id == old(self).rooms@[i].id && final(self).rooms@[i].x == old(self).rooms@[i].x && final(self).rooms@[i].y == old(self).rooms@[i].y && final(self).rooms@[i].width == old(self).rooms@[i].width && final(self).rooms@[i].height == old(self).rooms@[i].height && old(self).rooms@[i].items@.is_prefix_of(final(self).rooms@[i].items@),
            old(self).rooms@.len() == 0 ==> *final(self) == *old(self),
            old(self).rooms@.len() > 0 ==> total_items(final(self).rooms@) == total_items(
                old(self).rooms@,
            ) + key_items_added(keys, old(self).corridors@) + old(self).rooms@.len()
                || total_items(final(self).rooms@) == total_items(old(self).rooms@)
                + key_items_added(keys, old(self).corridors@) + old(self).rooms@.len() + 1,
            forall|i: int, j: int|
                0 <= i < final(self).rooms@.len() && old(self).rooms@[i].items@.len() <= j < final(self).rooms@[i].items@.len() ==> added_item_ok(
                    #[trigger] final(self).rooms@[i].items@[j],
                    key_items_added(keys, old(self).corridors@) as int,
                ) && final(self).rooms@[i].items@[j].id < total_items(final(self).rooms@)
                    - total_items(old(self).rooms@),
            forall|i1: int, j1: int, i2: int, j2: int|
                #![trigger final(self).rooms@[i1].items@[j1], final(self).rooms@[i2].items@[j2]]
                0 <= i1 < final(self).rooms@.len() && old(self).rooms@[i1].items@.len() <= j1
                    < final(self).rooms@[i1].items@.len() && 0 <= i2 < final(self).rooms@.len()
                    && old(self).rooms@[i2].items@.len() <= j2 < final(self).rooms@[i2].items@.len()
                    && !(i1 == i2 && j1 == j2) ==> final(self).rooms@[i1].items@[j1].id != final(self).rooms@[i2].items@[j2].id,
    {
        let rooms_number = self.get_rooms_number();
        if rooms_number == 0 {
            // No room exists to receive an item; the layout stays as it is.
            return ;
        }
        let mut item_id: usize = 0;
        proof {
            lemma_doors_in_bound(self.corridors@);
        }
        let doors_number = self.get_doors_number();
        let ghost kc = key_items_added(keys, old(self).corridors@) as int;

        if keys && doors_number > 0 {
            // Every key opens every door in this design: one universal key
            // per counted door slot, each dropped into a random room.
            let mut k: usize = 0;
            while k < doors_number
                invariant
                    0 < rooms_number,
                    rooms_number == self.rooms@.len(),
                    rooms_number == old(self).rooms@.len(),
                    k <= doors_number,
                    doors_number <= 0x20000,
                    item_id == k,
                    kc == doors_number,
                    self.corridors == old(self).corridors,
                    forall|i: int| 0 <= i < self.rooms@.len()
                        ==> (#[trigger] self.rooms@[i]).id == old(self).rooms@[i].id
                            && self.rooms@[i].x == old(self).rooms@[i].x && self.rooms@[i].y == old(self).rooms@[i].y && self.rooms@[i].width == old(self).rooms@[i].width
                            && self.rooms@[i].height == old(self).rooms@[i].height && old(self).rooms@[i].items@.is_prefix_of(self.rooms@[i].items@),
                    total_items(self.rooms@) == total_items(old(self).rooms@) + k,
                    forall|i: int, j: int|
                        0 <= i < self.rooms@.len() && old(self).rooms@[i].items@.len() <= j
                            < self.rooms@[i].items@.len() ==> added_item_ok(
                            #[trigger] self.rooms@[i].items@[j],
                            kc,
                        ) && self.rooms@[i].items@[j].id < item_id,
                    forall|i1: int, j1: int, i2: int, j2: int|
                        #![trigger self.rooms@[i1].items@[j1], self.rooms@[i2].items@[j2]]
                        0 <= i1 < self.rooms@.len() && old(self).rooms@[i1].items@.len() <= j1
                            < self.rooms@[i1].items@.len() && 0 <= i2 < self.rooms@.len() && old(self).rooms@[i2].items@.len() <= j2 < self.rooms@[i2].items@.len() && !(i1 == i2
                            && j1 == j2) ==> self.rooms@[i1].items@[j1].id
                            != self.rooms@[i2].items@[j2].id,
                decreases doors_number - k,
            {
                let ghost pre = self.rooms@;
                let desc = "Universal Key".to_owned();
                let item = Item::new(item_id, ItemType::Key(0), &desc);
                let room_idx = rng.sample(0, rooms_number as u64) as usize;
                self.drop_item_into_room(room_idx, item);
                proof {
                    assert forall|i: int| 0 <= i < self.rooms@.len() implies old(self).rooms@[i].items@.is_prefix_of((#[trigger] self.rooms@[i]).items@) by {
                        assert(old(self).rooms@[i].items@.is_prefix_of(pre[i].items@));
                        if i == room_idx {
                            assert(self.rooms@[i].items@ == pre[i].items@.push(item));
                        } else {
                            assert(self.rooms@[i] == pre[i]);
                        }
                    }
                    assert forall|i: int, j: int|
                        0 <= i < self.rooms@.len() && old(self).rooms@[i].items@.len() <= j
                            < self.rooms@[i].items@.len() implies added_item_ok(
                        #[trigger] self.rooms@[i].items@[j],
                        kc,
                    ) && self.rooms@[i].items@[j].id < item_id + 1 by {
                        if i == room_idx && j == self.rooms@[i].items@.len() - 1 {
                            assert(self.rooms@[i].items@[j] == item);
                        } else {
                            assert(self.rooms@[i].items@[j] == pre[i].items@[j]);
                        }
                    }
                    assert forall|i1: int, j1: int, i2: int, j2: int|
                        #![trigger self.rooms@[i1].items@[j1], self.rooms@[i2].items@[j2]]
                        0 <= i1 < self.rooms@.len() && old(self).rooms@[i1].items@.len() <= j1
                            < self.rooms@[i1].items@.len() && 0 <= i2 < self.rooms@.len() && old(self).rooms@[i2].items@.len() <= j2 < self.rooms@[i2].items@.len() && !(i1 == i2
                            && j1 == j2) implies self.rooms@[i1].items@[j1].id
                        != self.rooms@[i2].items@[j2].id by {
                        let new1 = i1 == room_idx && j1 == self.rooms@[i1 as int].items@.len() - 1;
                        let new2 = i2 == room_idx && j2 == self.rooms@[i2 as int].items@.len() - 1;
                        if new1 && !new2 {
                            assert(self.rooms@[i1].items@[j1] == item);
                            assert(self.rooms@[i2].items@[j2] == pre[i2].items@[j2]);
                        } else if !new1 && new2 {
                            assert(self.rooms@[i1].items@[j1] == pre[i1].items@[j1]);
                            assert(self.rooms@[i2].items@[j2] == item);
                        } else if !new1 && !new2 {
                            assert(self.rooms@[i1].items@[j1] == pre[i1].items@[j1]);
                            assert(self.rooms@[i2].items@[j2] == pre[i2].items@[j2]);
                        }
                    }
                }
                item_id += 1;
                k += 1;
            }
        }
        // Generate random items of random kinds.
        let number_items_to_generate = rng.sample(
            rooms_number as u64,
            rooms_number as u64 + 2,
        ) as usize;
        let ghost mid_rooms = self.rooms@;
        let ghost base_total = total_items(self.rooms@);
        let ghost base_id = item_id as int;
        proof {
            assert(base_id == kc);
        }
        let mut n: usize = 0;
        while n < number_items_to_generate
            invariant
                0 < rooms_number,
                rooms_number == self.rooms@.len(),
                rooms_number == old(self).rooms@.len(),
                rooms_number <= 0x10000,
                n <= number_items_to_generate,
                number_items_to_generate <= 0x10001,
                base_id <= 0x20000,
                base_id == kc,
                item_id == base_id + n,
                self.corridors == old(self).corridors,
                forall|i: int| 0 <= i < self.rooms@.len()
                    ==> (#[trigger] self.rooms@[i]).id == old(self).rooms@[i].id
                        && self.rooms@[i].x == old(self).rooms@[i].x && self.rooms@[i].y == old(self).rooms@[i].y && self.rooms@[i].width == old(self).rooms@[i].width
                        && self.rooms@[i].height == old(self).rooms@[i].height && old(self).rooms@[i].items@.is_prefix_of(self.rooms@[i].items@),
                total_items(self.rooms@) == base_total + n,
                forall|i: int, j: int|
                    0 <= i < self.rooms@.len() && old(self).rooms@[i].items@.len() <= j
                        < self.rooms@[i].items@.len() ==> added_item_ok(
                        #[trigger] self.rooms@[i].items@[j],
                        kc,
                    ) && self.rooms@[i].items@[j].id < item_id,
                forall|i1: int, j1: int, i2: int, j2: int|
                    #![trigger self.rooms@[i1].items@[j1], self.rooms@[i2].items@[j2]]
                    0 <= i1 < self.rooms@.len() && old(self).rooms@[i1].items@.len() <= j1
                        < self.rooms@[i1].items@.len() && 0 <= i2 < self.rooms@.len() && old(self).rooms@[i2].items@.len() <= j2 < self.rooms@[i2].items@.len() && !(i1 == i2
                        && j1 == j2) ==> self.rooms@[i1].items@[j1].id
                        != self.rooms@[i2].items@[j2].id,
            decreases number_items_to_generate - n,
        {
            let t = rng.sample(0, 3);
            let item_type = if t == 0 {
                ItemType::Weapon
            } else if t == 1 {
                ItemType::Armor
            } else {
                ItemType::Potion
            };
            let ghost pre = self.rooms@;
            let desc = item_description(item_id);
            let item = Item::new(item_id, item_type, &desc);
            let room_idx = rng.sample(0, rooms_number as u64) as usize;
            self.drop_item_into_room(room_idx, item);
            proof {
                assert forall|i: int| 0 <= i < self.rooms@.len() implies old(self).rooms@[i].items@.is_prefix_of((#[trigger] self.rooms@[i]).items@) by {
                    assert(old(self).rooms@[i].items@.is_prefix_of(pre[i].items@));
                    if i == room_idx {
                        assert(self.rooms@[i].items@ == pre[i].items@.push(item));
                    } else {
                        assert(self.rooms@[i] == pre[i]);
                    }
                }
                assert forall|i: int, j: int|
                    0 <= i < self.rooms@.len() && old(self).rooms@[i].items@.len() <= j
                        < self.rooms@[i].items@.len() implies added_item_ok(
                    #[trigger] self.rooms@[i].items@[j],
                    kc,
                ) && self.rooms@[i].items@[j].id < item_id + 1 by {
                    if i == room_idx && j == self.rooms@[i].items@.len() - 1 {
                        assert(self.rooms@[i].items@[j] == item);
                    } else {
                        assert(self.rooms@[i].items@[j] == pre[i].items@[j]);
                    }
                }
                assert forall|i1: int, j1: int, i2: int, j2: int|
                    #![trigger self.rooms@[i1].items@[j1], self.rooms@[i2].items@[j2]]
                    0 <= i1 < self.rooms@.len() && old(self).rooms@[i1].items@.len() <= j1
                        < self.rooms@[i1].items@.len() && 0 <= i2 < self.rooms@.len() && old(self).rooms@[i2].items@.len() <= j2 < self.rooms@[i2].items@.len() && !(i1 == i2
                        && j1 == j2) implies self.rooms@[i1].items@[j1].id
                    != self.rooms@[i2].items@[j2].id by {
                    let new1 = i1 == room_idx && j1 == self.rooms@[i1 as int].items@.len() - 1;
                    let new2 = i2 == room_idx && j2 == self.rooms@[i2 as int].items@.len() - 1;
                    if new1 && !new2 {
                        assert(self.rooms@[i1].items@[j1] == item);
                        assert(self.rooms@[i2].items@[j2] == pre[i2].items@[j2]);
                    } else if !new1 && new2 {
                        assert(self.rooms@[i1].items@[j1] == pre[i1].items@[j1]);
                        assert(self.rooms@[i2].items@[j2] == item);
                    } else if !new1 && !new2 {
                        assert(self.rooms@[i1].items@[j1] == pre[i1].items@[j1]);
                        assert(self.rooms@[i2].items@[j2] == pre[i2].items@[j2]);
                    }
                }
            }
            item_id += 1;
            n += 1;
        }
        proof {
            assert forall|i: int, j: int|
                0 <= i < self.rooms@.len() && 0 <= j < self.rooms@.len() && i != j implies !rooms_overlap(
                self.rooms@[i],
                self.rooms@[j],
            ) by {
                assert(self.rooms@[i].x == old(self).rooms@[i].x);
                assert(self.rooms@[j].x == old(self).rooms@[j].x);
                assert(!rooms_overlap(old(self).rooms@[i], old(self).rooms@[j]));
            }
            assert forall|i: int| 0 <= i < self.rooms@.len() implies (
            #[trigger] self.rooms@[i]).id == i && self.rooms@[i].width >= 2
                && self.rooms@[i].height >= 2 by {
                assert(self.rooms@[i].id == old(self).rooms@[i].id);
                assert(old(self).rooms@[i].id == i);
                assert(old(self).rooms@[i].width >= 2 && old(self).rooms@[i].height >= 2);
            }
        }
    }

    /// Adds random doors to the dungeon's corridors; call it after
    /// `generate`. Each corridor independently gets a door with a 75%
    /// chance; a placed door comes with a second one at the opposite end
    /// with a further 40% chance. Door ids are allocated sequentially over
    /// the corridor scan, the opposite-end door of a pair taking the higher
    /// id. Doors are never locked.
    pub fn add_doors(&mut self, rng: &mut DungeonRng) -> (res: Result<(), GenerationError>)
        requires
            old(self).wf(),
        ensures
            res is Ok <==> old(self).rooms@.len() != 1,
            res is Err ==> res == Err::<(), GenerationError>(GenerationError::SingleRoomLayout)
                && *final(self) == *old(self),
            res is Ok ==> final(self).wf() && final(self).rooms == old(self).rooms && final(self).corridors@.len() == old(self).corridors@.len(),
            res is Ok ==> forall|j: int| 0 <= j < final(self).corridors@.len()
                ==> (#[trigger] final(self).corridors@[j]).id == old(self).corridors@[j].id
                    && final(self).corridors@[j].from_room_id == old(self).corridors@[j].from_room_id && final(self).corridors@[j].to_room_id == old(self).corridors@[j].to_room_id && (old(self).corridors@[j].from_room_door is None
                    && old(self).corridors@[j].to_room_door is None ==> (final(self).corridors@[j].from_room_door matches Some(d) ==> !d.locked) && (final(self).corridors@[j].to_room_door matches Some(d) ==> !d.locked) && (final(self).corridors@[j].from_room_door is Some ==> final(self).corridors@[j].to_room_door is Some)),
            res is Ok ==> ((forall|j: int|
                0 <= j < old(self).corridors@.len()
                    ==> (#[trigger] old(self).corridors@[j]).from_room_door is None && old(self).corridors@[j].to_room_door is None) ==> forall|j: int|
                0 <= j < final(self).corridors@.len()
                    ==> ((#[trigger] final(self).corridors@[j]).to_room_door matches Some(d)
                        ==> d.id == doors_in(final(self).corridors@.take(j))) && (final(self).corridors@[j].from_room_door matches Some(d) ==> d.id == doors_in(
                        final(self).corridors@.take(j),
                    ) + 1)),
    {
        if self.rooms.len() == 1 {
            return Err(GenerationError::SingleRoomLayout);
        }
        let ghost fresh = forall|j: int|
            0 <= j < old(self).corridors@.len()
                ==> (#[trigger] old(self).corridors@[j]).from_room_door is None && old(self).corridors@[j].to_room_door is None;
        let mut door_id: usize = 0;
        let mut i: usize = 0;
        while i < self.corridors.len()
            invariant
                self.rooms == old(self).rooms,
                self.corridors@.len() == old(self).corridors@.len(),
                self.corridors@.len() <= 0xFFFF,
                i <= self.corridors@.len(),
                door_id <= 2 * i,
                forall|j: int| i <= j < self.corridors@.len()
                    ==> self.corridors@[j] == old(self).corridors@[j],
                forall|j: int| 0 <= j < i
                    ==> (#[trigger] self.corridors@[j]).id == old(self).corridors@[j].id
                        && self.corridors@[j].from_room_id == old(self).corridors@[j].from_room_id
                        && self.corridors@[j].to_room_id == old(self).corridors@[j].to_room_id && (
                    old(self).corridors@[j].from_room_door is None && old(self).corridors@[j].to_room_door is None ==> (self.corridors@[j].from_room_door
                        matches Some(d) ==> !d.locked) && (self.corridors@[j].to_room_door matches
                        Some(d) ==> !d.locked) && (self.corridors@[j].from_room_door is Some
                        ==> self.corridors@[j].to_room_door is Some)),
                fresh == (forall|j: int|
                    0 <= j < old(self).corridors@.len()
                        ==> (#[trigger] old(self).corridors@[j]).from_room_door is None && old(self).corridors@[j].to_room_door is None),
                fresh ==> door_id == doors_in(self.corridors@.take(i as int)),
                fresh ==> forall|j: int|
                    0 <= j < i ==> ((#[trigger] self.corridors@[j]).to_room_door matches Some(d)
                        ==> d.id == doors_in(self.corridors@.take(j))) && (
                    self.corridors@[j].from_room_door matches Some(d) ==> d.id == doors_in(
                        self.corridors@.take(j),
                    ) + 1),
            decreases self.corridors@.len() - i,
        {
            let ghost pre_corridors = self.corridors@;
            if rng.sample_inclusive(1, 100) <= DOOR_CREATION_CHANCE {
                let open_roll = rng.sample(0, 100);
                let d1 = Door { id: door_id, locked: false, open: open_roll > 50 };
                let mut c = self.corridors[i];

                if rng.sample_inclusive(1, 100) <= DOORS_ON_BOTH_SIDES_CHANCE {
                    door_id += 1;
                    let d2 = Door { id: door_id, locked: false, open: false };
                    c.from_room_door = Some(d2);
                }
                door_id += 1;
                c.to_room_door = Some(d1);
                self.corridors[i] = c;
            }
            proof {
                if fresh {
                    assert forall|j: int| 0 <= j <= i implies self.corridors@.take(j)
                        =~= pre_corridors.take(j) by {}
                    lemma_doors_in_take_step(self.corridors@, i as int);
                    assert forall|j: int|
                        0 <= j < i + 1 implies ((#[trigger] self.corridors@[j]).to_room_door
                        matches Some(d) ==> d.id == doors_in(self.corridors@.take(j))) && (
                    self.corridors@[j].from_room_door matches Some(d) ==> d.id == doors_in(
                        self.corridors@.take(j),
                    ) + 1) by {
                        assert(self.corridors@.take(j) =~= pre_corridors.take(j));
                        if j < i {
                            assert(self.corridors@[j] == pre_corridors[j]);
                        }
                    }
                }
            }
            i += 1;
        }
        Ok(())
    }
}

/// Every corridor of a well-formed layout joins two distinct rooms, and
/// both of its room ids resolve: the room stored at that position carries
/// exactly that id.
pub proof fn lemma_corridor_endpoints_resolve(d: Dungeon, i: int)
    requires
        d.wf(),
        0 <= i < d.corridors@.len(),
    ensures
        d.corridors@[i].from_room_id != d.corridors@[i].to_room_id,
        d.corridors@[i].from_room_id < d.rooms@.len(),
        d.corridors@[i].to_room_id < d.rooms@.len(),
        d.rooms@[d.corridors@[i].from_room_id as int].id == d.corridors@[i].from_room_id,
        d.rooms@[d.corridors@[i].to_room_id as int].id == d.corridors@[i].to_room_id,
{
}

/// Relies on std's `format!` to render an item's number into its
/// description text.
#[verifier::external_body]
fn item_description(n: usize) -> String {
    format!("Item: {}", n)
}

/// Taking one more room adds exactly that room's item count to the total.
pub(crate) proof fn lemma_total_items_take_step(rooms: Seq<Room>, r: int)
    requires
        0 <= r < rooms.len(),
    ensures
        total_items(rooms.take(r + 1)) == total_items(rooms.take(r)) + rooms[r].items@.len(),
{
    assert(rooms.take(r + 1).drop_last() == rooms.take(r));
    assert(rooms.take(r + 1).last() == rooms[r]);
}

/// Replacing one room changes the item total by the difference between the
/// new and old item counts of that room.
proof fn lemma_total_items_update(rooms: Seq<Room>, i: int, r: Room)
    requires
        0 <= i < rooms.len(),
    ensures
        total_items(rooms.update(i, r)) == total_items(rooms) - rooms[i].items@.len()
            + r.items@.len(),
    decreases rooms.len(),
{
    if i == rooms.len() - 1 {
        assert(rooms.update(i, r).drop_last() == rooms.drop_last());
        assert(rooms.update(i, r).last() == r);
    } else {
        assert(rooms.update(i, r).drop_last() == rooms.drop_last().update(i, r));
        assert(rooms.update(i, r).last() == rooms.last());
        lemma_total_items_update(rooms.drop_last(), i, r);
    }
}

/// A corridor holds at most two doors, so a corridor list holds at most
/// twice its length.
proof fn lemma_doors_in_bound(cs: Seq<Corridor>)
    ensures
        doors_in(cs) <= 2 * cs.len(),
    decreases cs.len(),
{
    if cs.len() > 0 {
        lemma_doors_in_bound(cs.drop_last());
    }
}

/// The quotient of a division, multiplied back by the divisor, cannot
/// exceed the dividend.
proof fn lemma_div_times_le(x: int, d: int)
    requires
        0 <= x,
        0 < d,
    ensures
        (x / d) * d <= x,
{
    vstd::arithmetic::div_mod::lemma_fundamental_div_mod(x, d);
    vstd::arithmetic::div_mod::lemma_mod_bound(x, d);
    assert((x / d) * d == d * (x / d)) by (nonlinear_arith);
}

/// Taking one more corridor adds exactly that corridor's door slots.
proof fn lemma_doors_in_take_step(cs: Seq<Corridor>, i: int)
    requires
        0 <= i < cs.len(),
    ensures
        doors_in(cs.take(i + 1)) == doors_in(cs.take(i)) + door_slots(cs[i]),
{
    assert(cs.take(i + 1).drop_last() == cs.take(i));
    assert(cs.take(i + 1).last() == cs[i]);
}

/// Filtering one more element keeps the filtered prefix, extended by the
/// element when it matches.
proof fn lemma_filter_take_step(cs: Seq<Corridor>, i: int, pred: spec_fn(Corridor) -> bool)
    requires
        0 <= i < cs.len(),
    ensures
        cs.take(i + 1).filter(pred) == if pred(cs[i]) {
            cs.take(i).filter(pred).push(cs[i])
        } else {
            cs.take(i).filter(pred)
        },
{
    reveal(Seq::filter);
    assert(cs.take(i + 1).drop_last() == cs.take(i));
    assert(cs.take(i + 1).last() == cs[i]);
}

} // verus!
