use vstd::prelude::*;

use crate::map::TileType;
use crate::map_builders::BuilderMap;
use crate::map_builders::cellular_automata::interior;

verus! {

/// A builder that opens the whole map but its outer frame, for trying things out.
pub struct DebugMapBuilder {}

impl DebugMapBuilder {
    /// A new debug builder.
    pub fn new() -> (b: Box<DebugMapBuilder>) {
        Box::new(DebugMapBuilder {})
    }

    /// Floors every tile but those of the outermost rows and columns, which stay as they
    /// were; nothing else changes.
    pub fn build(&mut self, _rng: &mut bracket_lib::random::RandomNumberGenerator, build_data: &mut BuilderMap)
        requires
            old(build_data).wf(),
        ensures
            final(build_data).wf(),
            final(build_data).same_but_tiles(*old(build_data)),
            forall|x: int, y: int| #![trigger final(build_data).map.tile(x, y)] final(build_data).map.on_map(x, y) ==>
                final(build_data).map.tile(x, y) == if interior(final(build_data).width as int, final(build_data).height as int, x, y) {
                    TileType::Floor
                } else {
                    old(build_data).map.tile(x, y)
                },
    {
        let ghost b0 = *build_data;
        let w = build_data.width;
        let h = build_data.height;
        let mut y: i32 = 1;
        while y < h - 1
            invariant
                build_data.wf(),
                build_data.same_but_tiles(b0),
                w == b0.width && h == b0.height,
                1 <= y <= if h - 1 > 1 { h - 1 } else { 1 },
                forall|a: int, b: int| #![trigger build_data.map.tile(a, b)] build_data.map.on_map(a, b) ==>
                    build_data.map.tile(a, b) == if interior(w as int, h as int, a, b) && b < y { TileType::Floor } else { b0.map.tile(a, b) },
            decreases h - y,
        {
            let mut x: i32 = 1;
            while x < w - 1
                invariant
                    build_data.wf(),
                    build_data.same_but_tiles(b0),
                    w == b0.width && h == b0.height,
                    1 <= y < h - 1,
                    1 <= x <= if w - 1 > 1 { w - 1 } else { 1 },
                    forall|a: int, b: int| #![trigger build_data.map.tile(a, b)] build_data.map.on_map(a, b) ==>
                        build_data.map.tile(a, b) == if interior(w as int, h as int, a, b) && (b < y || (b == y && a < x)) {
                            TileType::Floor
                        } else {
                            b0.map.tile(a, b)
                        },
                decreases w - x,
            {
                build_data.map.set_tile(x as usize, y as usize, TileType::Floor);
                x = x + 1;
            }
            y = y + 1;
        }
    }
}

} // verus!
