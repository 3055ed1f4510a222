use vstd::prelude::*;

verus! {

/// A passable/impassable barrier attached to one end of a corridor.
#[derive(Clone, Copy, PartialEq, Eq, Structural, Debug)]
pub struct Door {
    /// A unique id of the door.
    pub id: usize,
    /// If true the door is locked.
    pub locked: bool,
    /// If true the door is open.
    pub open: bool,
}

} // verus!
