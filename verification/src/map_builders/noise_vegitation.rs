use vstd::prelude::*;

use crate::map::{grid_wf, TileType};
use crate::map_builders::BuilderMap;

verus! {

/// Where the map's noise value at a tile lies: above `0.999`, below `-0.99`, or between.
#[derive(PartialEq, Eq, Copy, Clone, Debug, Structural)]
pub enum NoiseBand {
    High,
    Low,
    Middle,
}

/// The tile a floor tile becomes where the noise is in `band`: moss where it is high,
/// grass where it is low; other tiles, and floor elsewhere, stay.
pub open spec fn vegetation(t: TileType, band: NoiseBand) -> TileType {
    if t == TileType::Floor && band == NoiseBand::High {
        TileType::Moss
    } else if t == TileType::Floor && band == NoiseBand::Low {
        TileType::Grass
    } else {
        t
    }
}

/// A builder that grows moss and grass on floor where the map's noise is extreme.
pub struct NoiseVegitationBuilder {}

impl NoiseVegitationBuilder {
    /// A new vegetation builder.
    pub fn new() -> (b: Box<NoiseVegitationBuilder>) {
        Box::new(NoiseVegitationBuilder {})
    }

    /// Grows vegetation on the map by the noise bands of its tiles (`bands[x][y]`).
    pub fn build(&mut self, _rng: &mut bracket_lib::random::RandomNumberGenerator, build_data: &mut BuilderMap, bands: &Vec<Vec<NoiseBand>>)
        requires
            old(build_data).wf(),
            grid_wf(bands@, old(build_data).width as int, old(build_data).height as int),
        ensures
            final(build_data).wf(),
            final(build_data).same_but_tiles(*old(build_data)),
            forall|x: int, y: int| #![trigger final(build_data).map.tile(x, y)] final(build_data).map.on_map(x, y) ==>
                final(build_data).map.tile(x, y) == vegetation(old(build_data).map.tile(x, y), bands@[x]@[y]),
    {
        let ghost b0 = *build_data;
        let w = build_data.width;
        let h = build_data.height;
        let mut y: i32 = 0;
        while y < h
            invariant
                build_data.wf(),
                build_data.same_but_tiles(b0),
                w == b0.width && h == b0.height,
                grid_wf(bands@, w as int, h as int),
                0 <= y <= h,
                forall|a: int, b: int| #![trigger build_data.map.tile(a, b)] build_data.map.on_map(a, b) ==>
                    build_data.map.tile(a, b) == if b < y { vegetation(b0.map.tile(a, b), bands@[a]@[b]) } else { b0.map.tile(a, b) },
            decreases h - y,
        {
            let mut x: i32 = 0;
            while x < w
                invariant
                    build_data.wf(),
                    build_data.same_but_tiles(b0),
                    w == b0.width && h == b0.height,
                    grid_wf(bands@, w as int, h as int),
                    0 <= y < h,
                    0 <= x <= w,
                    forall|a: int, b: int| #![trigger build_data.map.tile(a, b)] build_data.map.on_map(a, b) ==>
                        build_data.map.tile(a, b) == if b < y || (b == y && a < x) {
                            vegetation(b0.map.tile(a, b), bands@[a]@[b])
                        } else {
                            b0.map.tile(a, b)
                        },
                decreases w - x,
            {
                let band = bands[x as usize][y as usize];
                let tile = build_data.map.tiles[x as usize][y as usize];
                proof {
                    assert(tile == build_data.map.tile(x as int, y as int));
                }
                if tile == TileType::Floor {
                    if band == NoiseBand::High {
                        build_data.map.set_tile(x as usize, y as usize, TileType::Moss);
                    } else if band == NoiseBand::Low {
                        build_data.map.set_tile(x as usize, y as usize, TileType::Grass);
                    }
                }
                x = x + 1;
            }
            y = y + 1;
        }
    }
}

} // verus!
