use vstd::prelude::*;

verus! {

/// The kind of an item dropped into a room.
#[derive(Clone, Copy, PartialEq, Eq, Structural, Debug)]
pub enum ItemType {
    /// A key; the payload is the id of the door that the key can open.
    /// The layout generator always stores zero there: keys are universal
    /// in this design, the association is a documented placeholder.
    Key(usize),
    Weapon,
    Armor,
    Potion,
}

/// An item owned by exactly one room.
#[derive(Clone, Debug)]
pub struct Item {
    /// A unique id of the item.
    pub id: usize,
    /// Item type.
    pub item_type: ItemType,
    /// Description of the item.
    pub desc: String,
}

impl Item {
    pub fn new(iid: usize, it: ItemType, d: &String) -> (r: Self)
        ensures
            r.id == iid,
            r.item_type == it,
            r.desc@ == d@,
    {
        Self { id: iid, item_type: it, desc: d.clone() }
    }
}

} // verus!
