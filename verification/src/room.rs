//! Rooms: what a cell of the grid refers to.
use crate::list::List;
use crate::tile::{Material, Materials};
use vstd::prelude::*;

verus! {

/// A room, drawn with one tile material.
#[derive(Debug)]
pub struct Room {
    pub tile_material: Material,
}

impl Clone for Room {
    /// A room with this room's material.
    fn clone(&self) -> (room: Self)
        ensures
            room == *self,
    {
        Room { tile_material: self.tile_material.clone() }
    }
}

impl PartialEq for Room {
    /// Whether the two rooms are drawn with one material, by [`Material::same`].
    fn eq(&self, other: &Self) -> (same: bool)
        ensures
            same ==> *self == *other,
    {
        self.tile_material.same(&other.tile_material)
    }
}

impl vstd::std_specs::cmp::PartialEqSpecImpl for Room {
    /// `==` on rooms compares materials by where their records are, which no value
    /// shows: its answer is not a function of the two rooms.
    open spec fn obeys_eq_spec() -> bool {
        false
    }

    open spec fn eq_spec(&self, other: &Self) -> bool {
        *self == *other
    }
}

/// The rooms of a plan, in the order in which they were added.
pub type Rooms = List<Room>;

/// The rooms with one more room at the end, drawn with the first material of the
/// catalogue.
pub fn add_room(rooms: &Rooms, materials: &Materials) -> (longer: Rooms)
    requires
        materials@.len() > 0,
        rooms@.len() < usize::MAX,
    ensures
        longer@ == rooms@.push(Room { tile_material: materials@[0] }),
{
    let room = Room { tile_material: materials.as_slice()[0].clone() };
    rooms.push_back(room)
}

/// The rooms with the room at `index` drawn with `material`; `None` where no room has
/// that number.
///
/// Where the room is found to be drawn with `material` already, by [`Material::same`],
/// the result is the list of rooms itself.
pub fn change_material(rooms: &Rooms, index: usize, material: Material) -> (changed: Option<Rooms>)
    ensures
        changed is None <==> index >= rooms@.len(),
        changed matches Some(list) ==> list@ == rooms@.update(
            index as int,
            Room { tile_material: material },
        ),
{
    match rooms.get(index) {
        Some(room) => {
            let mut room = room.clone();
            room.tile_material = material;
            let changed = rooms.set(index, room);
            proof {
                if changed is Some {
                    assert(changed.unwrap()@ =~= rooms@.update(index as int, room));
                }
            }
            changed
        },
        None => None,
    }
}

} // verus!
