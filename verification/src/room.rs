use vstd::prelude::*;
use crate::item::Item;

verus! {

/// An axis-aligned rectangular floor area in grid units.
#[derive(Clone, Debug)]
pub struct Room {
    /// A unique id, assigned sequentially at creation.
    pub id: usize,
    /// Left edge of the room, in grid units.
    pub x: u16,
    /// Top edge of the room, in grid units.
    pub y: u16,
    /// Width in grid units, at least 2.
    pub width: u16,
    /// Height in grid units, at least 2.
    pub height: u16,
    /// The items owned by this room, in the order they were dropped.
    pub items: Vec<Item>,
}

/// The inclusive-edge bounding-box intersection test: rooms that merely
/// touch at an edge count as overlapping, which keeps committed rooms a
/// little further apart than a strict test would.
pub open spec fn rooms_overlap(a: Room, b: Room) -> bool {
    a.x <= b.x + b.width && a.x + a.width >= b.x
        && a.y <= b.y + b.height && a.y + a.height >= b.y
}

/// The room's cells all lie inside `[0, width) x [0, height)`.
pub open spec fn room_within_bounds(r: Room, width: int, height: int) -> bool {
    r.x + r.width <= width && r.y + r.height <= height
}

/// Cell `(x, y)` lies inside room `r`.
pub open spec fn room_covers(r: Room, x: int, y: int) -> bool {
    r.x <= x < r.x + r.width && r.y <= y < r.y + r.height
}

/// Cell `(x, y)` lies inside one of the rooms.
pub open spec fn some_room_covers(rooms: Seq<Room>, x: int, y: int) -> bool {
    exists|i: int| 0 <= i < rooms.len() && room_covers(rooms[i], x, y)
}

impl Room {
    pub fn new(rid: usize, xp: u16, yp: u16, w: u16, h: u16) -> (r: Self)
        ensures
            r.id == rid && r.x == xp && r.y == yp && r.width == w && r.height == h,
            r.items@.len() == 0,
    {
        Self { id: rid, x: xp, y: yp, width: w, height: h, items: Vec::<Item>::new() }
    }
}

} // verus!
