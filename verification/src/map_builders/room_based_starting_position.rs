use vstd::prelude::*;

use crate::components::Position;
use crate::map_builders::BuilderMap;
use crate::rect::spec_center;

verus! {

/// Starts the player in the centre of the first room.
pub struct RoomBasedStartingPosition {}

impl RoomBasedStartingPosition {
    /// A start placer.
    pub fn new() -> (b: Box<RoomBasedStartingPosition>) {
        Box::new(RoomBasedStartingPosition {})
    }

    /// Sets the starting position to the centre of the first room; nothing else changes.
    pub fn build(&mut self, build_data: &mut BuilderMap)
        requires
            old(build_data).wf(),
            old(build_data).rooms is Some,
            old(build_data).rooms->0@.len() >= 1,
        ensures
            final(build_data).wf(),
            final(build_data).map == old(build_data).map,
            final(build_data).spawn_list == old(build_data).spawn_list,
            final(build_data).rooms == old(build_data).rooms,
            final(build_data).corridors == old(build_data).corridors,
            final(build_data).history == old(build_data).history,
            final(build_data).width == old(build_data).width,
            final(build_data).height == old(build_data).height,
            final(build_data).starting_position == Some(Position {
                x: spec_center(old(build_data).rooms->0@[0]).0 as i32,
                y: spec_center(old(build_data).rooms->0@[0]).1 as i32,
            }),
    {
        let starting_pos = match &build_data.rooms {
            Some(rooms) => rooms[0].center(),
            None => (0, 0),
        };
        build_data.starting_position = Some(Position { x: starting_pos.0, y: starting_pos.1 });
    }
}

} // verus!
