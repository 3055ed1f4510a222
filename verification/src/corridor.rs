use vstd::prelude::*;
use crate::door::Door;

verus! {

/// A connection record between two rooms, optionally carrying a door at
/// either end. Rooms are referenced by id, never by ownership.
#[derive(Clone, Copy, PartialEq, Debug)]
pub struct Corridor {
    /// A unique id, assigned sequentially at creation.
    pub id: usize,
    /// Id of the room the corridor starts from.
    pub from_room_id: usize,
    /// Id of the room the corridor leads to; always differs from
    /// `from_room_id`.
    pub to_room_id: usize,
    /// The door at the `from` end, if any.
    pub from_room_door: Option<Door>,
    /// The door at the `to` end, if any.
    pub to_room_door: Option<Door>,
}

/// How many of the corridor's two door slots are filled.
pub open spec fn door_slots(c: Corridor) -> nat {
    (if c.from_room_door is Some { 1nat } else { 0nat })
        + (if c.to_room_door is Some { 1nat } else { 0nat })
}

/// Total number of filled door slots over a sequence of corridors.
pub open spec fn doors_in(cs: Seq<Corridor>) -> nat
    decreases cs.len(),
{
    if cs.len() == 0 {
        0nat
    } else {
        doors_in(cs.drop_last()) + door_slots(cs.last())
    }
}

impl Corridor {
    pub fn new(cid: usize, from: usize, to: usize, door_from: Option<Door>, door_to: Option<Door>) -> (r: Self)
        ensures
            r.id == cid && r.from_room_id == from && r.to_room_id == to,
            r.from_room_door == door_from && r.to_room_door == door_to,
    {
        Self {
            id: cid,
            from_room_id: from,
            to_room_id: to,
            from_room_door: door_from,
            to_room_door: door_to,
        }
    }
}

} // verus!
