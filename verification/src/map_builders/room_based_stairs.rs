use vstd::prelude::*;

use crate::map::TileType;
use crate::map_builders::BuilderMap;
use crate::rect::spec_center;

verus! {

/// Puts the down stairs in the centre of the last room.
pub struct RoomBasedStairs {}

impl RoomBasedStairs {
    /// A stairs placer.
    pub fn new() -> (b: Box<RoomBasedStairs>) {
        Box::new(RoomBasedStairs {})
    }

    /// Makes the centre of the last room the down stairs; nothing else changes.
    pub fn build(&mut self, build_data: &mut BuilderMap)
        requires
            old(build_data).wf(),
            old(build_data).rooms is Some,
            old(build_data).rooms->0@.len() >= 1,
        ensures
            final(build_data).wf(),
            final(build_data).same_but_tiles(*old(build_data)),
            ({
                let rs = old(build_data).rooms->0@;
                let (sx, sy) = spec_center(rs[rs.len() - 1]);
                forall|x: int, y: int| #![trigger final(build_data).map.tile(x, y)] final(build_data).map.on_map(x, y) ==>
                    final(build_data).map.tile(x, y) == if x == sx && y == sy { TileType::DownStairs } else { old(build_data).map.tile(x, y) }
            }),
    {
        let stairs_position = match &build_data.rooms {
            Some(rooms) => rooms[rooms.len() - 1].center(),
            None => (0, 0),
        };
        build_data.map.set_tile(stairs_position.0 as usize, stairs_position.1 as usize, TileType::DownStairs);
        build_data.take_snapshot();
    }
}

} // verus!
