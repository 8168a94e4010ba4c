use vstd::prelude::*;

use crate::components::Position;

verus! {

/// The width of the screen, in characters.
pub const SCREEN_X: i32 = 100;

/// The height of the screen, in characters.
pub const SCREEN_Y: i32 = 80;

/// The width of the part of the screen that shows the map.
pub const VIEWPORT_X: i32 = SCREEN_X - 31;

/// The height of the part of the screen that shows the map.
pub const VIEWPORT_Y: i32 = SCREEN_Y - 15;

/// The map tiles the camera shows around the player: the viewport's size, centred on the
/// player (`min_x`, `max_x`, `min_y`, `max_y`, the maxima excluded).
pub fn get_screen_bounds(player: Position) -> (b: (i32, i32, i32, i32))
    requires
        -1_000_000 <= player.x <= 1_000_000,
        -1_000_000 <= player.y <= 1_000_000,
    ensures
        b.0 == player.x - VIEWPORT_X / 2,
        b.1 == b.0 + VIEWPORT_X,
        b.2 == player.y - VIEWPORT_Y / 2,
        b.3 == b.2 + VIEWPORT_Y,
{
    let center_x = VIEWPORT_X / 2;
    let center_y = VIEWPORT_Y / 2;
    let min_x = player.x - center_x;
    let max_x = min_x + VIEWPORT_X;
    let min_y = player.y - center_y;
    let max_y = min_y + VIEWPORT_Y;
    (min_x, max_x, min_y, max_y)
}

/// Where on the screen something at `pos` is drawn, if at all: relative to the view's
/// corner, strictly inside the map's size, and inside the viewport.
pub fn entity_screen_position(pos: Position, min_x: i32, min_y: i32, map_width: i32, map_height: i32) -> (r: Option<(i32, i32)>)
    requires
        -1_000_000 <= pos.x <= 1_000_000,
        -1_000_000 <= pos.y <= 1_000_000,
        -1_000_000 <= min_x <= 1_000_000,
        -1_000_000 <= min_y <= 1_000_000,
    ensures
        ({
            let (sx, sy) = (pos.x - min_x, pos.y - min_y);
            r == if 0 < sx < map_width && 0 < sy < map_height && sx < VIEWPORT_X && sy < VIEWPORT_Y {
                Some((sx as i32, sy as i32))
            } else {
                None
            }
        }),
{
    let sx = pos.x - min_x;
    let sy = pos.y - min_y;
    if sx > 0 && sx < map_width && sy > 0 && sy < map_height && sx < VIEWPORT_X && sy < VIEWPORT_Y {
        Some((sx, sy))
    } else {
        None
    }
}

/// Whether the camera draws the map tile `(tx, ty)`: it is on the map and revealed, or the
/// debugging aids show everything.
pub fn draws_tile(tx: i32, ty: i32, map_width: i32, map_height: i32, revealed: bool, debugging: bool) -> (r: bool)
    ensures
        r == (0 <= tx < map_width && 0 <= ty < map_height && (revealed || debugging)),
{
    tx >= 0 && tx < map_width && ty >= 0 && ty < map_height && (revealed || debugging)
}

/// The player stands in the middle of the view, which shows exactly the viewport's size.
pub proof fn lemma_player_centred(player: Position)
    ensures
        player.x - VIEWPORT_X / 2 <= player.x < player.x - VIEWPORT_X / 2 + VIEWPORT_X,
        player.y - VIEWPORT_Y / 2 <= player.y < player.y - VIEWPORT_Y / 2 + VIEWPORT_Y,
{
}

} // verus!
