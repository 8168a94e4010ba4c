use vstd::prelude::*;

use crate::components::Position;
use crate::map::{GameMap, TileType};
use crate::map_builders::{BuilderMap, SpawnList};
use crate::random_tables::EntityType;
use vstd::string::StrSliceExecFns;

pub mod prefab_levels;
pub mod prefab_rooms;
pub mod prefab_sections;

use crate::map_builders::prefab_builder::prefab_levels::PrefabLevel;
use crate::map_builders::prefab_builder::prefab_rooms::{
    checkerboard, checkerboard_room, chickfila, chickfila_room, trap, trap_room, well, well_room, PrefabRoom,
};
use crate::rng::{new_rng, roll_dice};
use crate::map_builders::prefab_builder::prefab_sections::{HorizontalPlacement, PrefabSection, VerticalPlacement};

verus! {

/// What a prefab builder lays down: a level drawn in REX Paint (its layers, as read from
/// the image), a whole drawn level, a drawn section, or small vaults.
#[derive(Clone, Debug)]
pub enum PrefabMode {
    RexLevel { layers: Vec<RexLayer> },
    Constant { level: PrefabLevel },
    Sectional { section: PrefabSection },
    RoomVaults,
}

/// Lays hand-drawn content onto the map.
pub struct PrefabBuilder {
    pub mode: PrefabMode,
}

/// The tile a template character stands for, if any.
pub open spec fn char_tile(ch: char) -> Option<TileType> {
    if ch == '#' {
        Some(TileType::Wall)
    } else if ch == '>' {
        Some(TileType::DownStairs)
    } else if ch == ' ' || ch == '.' || ch == '@' || ch == 'b' || ch == 'o' || ch == '^' || ch == '=' || ch == '%'
        || ch == 'q' || ch == 'u' || ch == '!' {
        Some(TileType::Floor)
    } else {
        None
    }
}

/// What a template character spawns, if anything.
pub open spec fn char_spawn(ch: char) -> Option<EntityType> {
    if ch == 'b' {
        Some(EntityType::Bisat)
    } else if ch == 'o' {
        Some(EntityType::Ogur)
    } else if ch == '^' {
        Some(EntityType::BearTrap)
    } else if ch == '=' || ch == '%' {
        Some(EntityType::Sandwich)
    } else if ch == 'q' {
        Some(EntityType::ChickenLeg)
    } else if ch == 'u' {
        Some(EntityType::GobletOfWine)
    } else if ch == '!' {
        Some(EntityType::HealthPotion)
    } else {
        None
    }
}

/// The characters of a template: line breaks dropped, and characters whose low byte is
/// 160 (such as a no-break space) read as spaces.
pub open spec fn ascii_cells(s: Seq<char>) -> Seq<char>
    decreases s.len(),
{
    if s.len() == 0 {
        Seq::empty()
    } else {
        let prev = ascii_cells(s.drop_last());
        let c = s.last();
        if c == '\r' || c == '\n' {
            prev
        } else if (c as u32) % 256 == 160 {
            prev.push(' ')
        } else {
            prev.push(c)
        }
    }
}

/// Reads a template into its characters.
pub fn read_ascii_to_vec(ascii: &str) -> (cells: Vec<char>)
    ensures
        cells@ == ascii_cells(ascii@),
{
    let n = ascii.unicode_len();
    let mut cells: Vec<char> = Vec::new();
    let mut i: usize = 0;
    while i < n
        invariant
            n == ascii@.len(),
            i <= n,
            cells@ == ascii_cells(ascii@.subrange(0, i as int)),
        decreases n - i,
    {
        let c = ascii.get_char(i);
        proof {
            assert(ascii@.subrange(0, i + 1).drop_last() =~= ascii@.subrange(0, i as int));
            assert(ascii@.subrange(0, i + 1).last() == c);
        }
        if c == '\r' || c == '\n' {
        } else if (c as u32) % 256 == 160 {
            cells.push(' ');
        } else {
            cells.push(c);
        }
        i = i + 1;
    }
    assert(ascii@.subrange(0, n as int) =~= ascii@);
    cells
}

/// Puts template character `ch` at `(x, y)`: its tile, and, for `@`, the starting
/// position, and for monsters and items, a spawn.
pub fn char_to_map(ch: char, x: usize, y: usize, build_data: &mut BuilderMap)
    requires
        old(build_data).wf(),
        old(build_data).map.on_map(x as int, y as int),
    ensures
        final(build_data).wf(),
        final(build_data).map.same_frame(old(build_data).map),
        final(build_data).rooms == old(build_data).rooms,
        final(build_data).corridors == old(build_data).corridors,
        final(build_data).width == old(build_data).width,
        final(build_data).height == old(build_data).height,
        final(build_data).history == old(build_data).history,
        forall|a: int, b: int| #![trigger final(build_data).map.tile(a, b)] final(build_data).map.on_map(a, b) ==> final(build_data).map.tile(a, b) ==
            if a == x && b == y && char_tile(ch) is Some { char_tile(ch)->0 } else { old(build_data).map.tile(a, b) },
        final(build_data).starting_position == if ch == '@' { Some(Position { x: x as i32, y: y as i32 }) } else { old(build_data).starting_position },
        final(build_data).spawn_list@ == match char_spawn(ch) {
            Some(e) => old(build_data).spawn_list@.push(((x as i32, y as i32), e)),
            None => old(build_data).spawn_list@,
        },
{
    let xi = x as i32;
    let yi = y as i32;
    if ch == ' ' || ch == '.' {
        build_data.map.set_tile(x, y, TileType::Floor);
    } else if ch == '#' {
        build_data.map.set_tile(x, y, TileType::Wall);
    } else if ch == '@' {
        build_data.map.set_tile(x, y, TileType::Floor);
        build_data.starting_position = Some(Position { x: xi, y: yi });
    } else if ch == '>' {
        build_data.map.set_tile(x, y, TileType::DownStairs);
    } else if ch == 'b' {
        build_data.map.set_tile(x, y, TileType::Floor);
        build_data.spawn_list.push(((xi, yi), EntityType::Bisat));
    } else if ch == 'o' {
        build_data.map.set_tile(x, y, TileType::Floor);
        build_data.spawn_list.push(((xi, yi), EntityType::Ogur));
    } else if ch == '^' {
        build_data.map.set_tile(x, y, TileType::Floor);
        build_data.spawn_list.push(((xi, yi), EntityType::BearTrap));
    } else if ch == '=' || ch == '%' {
        build_data.map.set_tile(x, y, TileType::Floor);
        build_data.spawn_list.push(((xi, yi), EntityType::Sandwich));
    } else if ch == 'q' {
        build_data.map.set_tile(x, y, TileType::Floor);
        build_data.spawn_list.push(((xi, yi), EntityType::ChickenLeg));
    } else if ch == 'u' {
        build_data.map.set_tile(x, y, TileType::Floor);
        build_data.spawn_list.push(((xi, yi), EntityType::GobletOfWine));
    } else if ch == '!' {
        build_data.map.set_tile(x, y, TileType::Floor);
        build_data.spawn_list.push(((xi, yi), EntityType::HealthPotion));
    }
}

/// Template cell `k` (row by row, `tw` to a row) is laid down: it lies within the first
/// `lx` columns and `ly` rows, and the template has a character for it.
pub open spec fn stamp_placed(len: int, tw: int, lx: int, ly: int, k: int) -> bool {
    &&& k % tw < lx
    &&& k / tw < ly
    &&& k < len
}

/// Among the first `n` cells of a template of `tw` by `th` laid at `(ox, oy)`, cell `k` is
/// laid down at `(x, y)` and sets a tile there.
pub open spec fn stamp_hit(chars: Seq<char>, tw: int, th: int, ox: int, oy: int, lx: int, ly: int, n: int, k: int, x: int, y: int) -> bool {
    &&& 0 <= k < n
    &&& k < tw * th
    &&& stamp_placed(chars.len() as int, tw, lx, ly, k)
    &&& k % tw + ox == x
    &&& k / tw + oy == y
    &&& char_tile(chars[k]) is Some
}

/// The tile at `(x, y)` after the first `n` cells of a template are laid over `old`.
pub open spec fn stamped_tile(chars: Seq<char>, tw: int, th: int, ox: int, oy: int, lx: int, ly: int, n: int, x: int, y: int, old: TileType) -> TileType {
    if exists|k: int| #[trigger] stamp_hit(chars, tw, th, ox, oy, lx, ly, n, k, x, y) {
        char_tile(chars[choose|k: int| #[trigger] stamp_hit(chars, tw, th, ox, oy, lx, ly, n, k, x, y)])->0
    } else {
        old
    }
}

/// The spawns the first `n` cells of a template laid at `(ox, oy)` add, in order.
pub open spec fn stamp_spawns(chars: Seq<char>, tw: int, ox: int, oy: int, lx: int, ly: int, n: int) -> Seq<((i32, i32), EntityType)>
    decreases n,
{
    if n <= 0 {
        Seq::empty()
    } else {
        let prev = stamp_spawns(chars, tw, ox, oy, lx, ly, n - 1);
        let k = n - 1;
        if stamp_placed(chars.len() as int, tw, lx, ly, k) && char_spawn(chars[k]) is Some {
            prev.push((((k % tw + ox) as i32, (k / tw + oy) as i32), char_spawn(chars[k])->0))
        } else {
            prev
        }
    }
}

/// The starting position after the first `n` cells of a template laid at `(ox, oy)`: the
/// last `@` laid down, or `start` when there is none.
pub open spec fn stamp_start(chars: Seq<char>, tw: int, ox: int, oy: int, lx: int, ly: int, n: int, start: Option<Position>) -> Option<Position>
    decreases n,
{
    if n <= 0 {
        start
    } else {
        let k = n - 1;
        if stamp_placed(chars.len() as int, tw, lx, ly, k) && chars[k] == '@' {
            Some(Position { x: (k % tw + ox) as i32, y: (k / tw + oy) as i32 })
        } else {
            stamp_start(chars, tw, ox, oy, lx, ly, n - 1, start)
        }
    }
}

/// The cell index of `(tx, ty)` in a template `tw` wide gives back its column and row.
proof fn lemma_cell_index(tw: int, tx: int, ty: int)
    requires
        0 <= tx < tw,
        0 <= ty,
    ensures
        (ty * tw + tx) % tw == tx,
        (ty * tw + tx) / tw == ty,
{
    assert((ty * tw + tx) % tw == tx && (ty * tw + tx) / tw == ty) by (nonlinear_arith)
        requires 0 <= tx < tw, 0 <= ty;
}

/// Two cells of a template that land on the same tile are the same cell.
proof fn lemma_stamp_injective(tw: int, k1: int, k2: int)
    requires
        0 < tw,
        0 <= k1,
        0 <= k2,
        k1 % tw == k2 % tw,
        k1 / tw == k2 / tw,
    ensures
        k1 == k2,
{
    assert(k1 == (k1 / tw) * tw + k1 % tw) by (nonlinear_arith) requires 0 < tw;
    assert(k2 == (k2 / tw) * tw + k2 % tw) by (nonlinear_arith) requires 0 < tw;
}

/// Lays a template of `tw` by `th` characters, row by row, with its corner at `(ox, oy)`:
/// each cell in the first `lx` columns and `ly` rows that the template has a character for.
pub fn stamp(chars: &Vec<char>, tw: usize, th: usize, ox: usize, oy: usize, lx: usize, ly: usize, build_data: &mut BuilderMap)
    requires
        old(build_data).wf(),
        0 < tw,
        tw * th <= usize::MAX,
        forall|k: int| 0 <= k < tw * th && #[trigger] stamp_placed(chars@.len() as int, tw as int, lx as int, ly as int, k)
            ==> old(build_data).map.on_map(k % (tw as int) + ox, k / (tw as int) + oy),
    ensures
        final(build_data).wf(),
        final(build_data).map.same_frame(old(build_data).map),
        final(build_data).rooms == old(build_data).rooms,
        final(build_data).corridors == old(build_data).corridors,
        final(build_data).width == old(build_data).width,
        final(build_data).height == old(build_data).height,
        forall|x: int, y: int| #![trigger final(build_data).map.tile(x, y)] final(build_data).map.on_map(x, y) ==> final(build_data).map.tile(x, y)
            == stamped_tile(chars@, tw as int, th as int, ox as int, oy as int, lx as int, ly as int, tw * th, x, y, old(build_data).map.tile(x, y)),
        final(build_data).spawn_list@ == old(build_data).spawn_list@ + stamp_spawns(chars@, tw as int, ox as int, oy as int, lx as int, ly as int, tw * th),
        final(build_data).starting_position == stamp_start(chars@, tw as int, ox as int, oy as int, lx as int, ly as int, tw * th, old(build_data).starting_position),
{
    let ghost b0 = *build_data;
    let ghost cs = chars@;
    let ghost (twi, thi, oxi, oyi, lxi, lyi) = (tw as int, th as int, ox as int, oy as int, lx as int, ly as int);
    let mut i: usize = 0;
    let mut ty: usize = 0;
    while ty < th
        invariant
            build_data.wf(),
            build_data.map.same_frame(b0.map),
            build_data.rooms == b0.rooms,
            build_data.corridors == b0.corridors,
            build_data.width == b0.width,
            build_data.height == b0.height,
            cs == chars@,
            twi == tw && thi == th && oxi == ox && oyi == oy && lxi == lx && lyi == ly,
            0 < tw,
            tw * th <= usize::MAX,
            forall|k: int| 0 <= k < tw * th && #[trigger] stamp_placed(cs.len() as int, twi, lxi, lyi, k)
                ==> b0.map.on_map(k % twi + oxi, k / twi + oyi),
            ty <= th,
            i == ty * tw,
            forall|x: int, y: int| #![trigger build_data.map.tile(x, y)] build_data.map.on_map(x, y) ==> build_data.map.tile(x, y)
                == stamped_tile(cs, twi, thi, oxi, oyi, lxi, lyi, i as int, x, y, b0.map.tile(x, y)),
            build_data.spawn_list@ == b0.spawn_list@ + stamp_spawns(cs, twi, oxi, oyi, lxi, lyi, i as int),
            build_data.starting_position == stamp_start(cs, twi, oxi, oyi, lxi, lyi, i as int, b0.starting_position),
        decreases th - ty,
    {
        let mut tx: usize = 0;
        while tx < tw
            invariant
                build_data.wf(),
                build_data.map.same_frame(b0.map),
                build_data.rooms == b0.rooms,
                build_data.corridors == b0.corridors,
                build_data.width == b0.width,
                build_data.height == b0.height,
                cs == chars@,
                twi == tw && thi == th && oxi == ox && oyi == oy && lxi == lx && lyi == ly,
                0 < tw,
                tw * th <= usize::MAX,
                forall|k: int| 0 <= k < tw * th && #[trigger] stamp_placed(cs.len() as int, twi, lxi, lyi, k)
                    ==> b0.map.on_map(k % twi + oxi, k / twi + oyi),
                ty < th,
                tx <= tw,
                i == ty * tw + tx,
                forall|x: int, y: int| #![trigger build_data.map.tile(x, y)] build_data.map.on_map(x, y) ==> build_data.map.tile(x, y)
                    == stamped_tile(cs, twi, thi, oxi, oyi, lxi, lyi, i as int, x, y, b0.map.tile(x, y)),
                build_data.spawn_list@ == b0.spawn_list@ + stamp_spawns(cs, twi, oxi, oyi, lxi, lyi, i as int),
                build_data.starting_position == stamp_start(cs, twi, oxi, oyi, lxi, lyi, i as int, b0.starting_position),
            decreases tw - tx,
        {
            proof {
                lemma_cell_index(twi, tx as int, ty as int);
                assert(i < tw * th) by (nonlinear_arith) requires i == ty * tw + tx, tx < tw, ty < th;
            }
            let ghost before = *build_data;
            if tx < lx && ty < ly && i < chars.len() {
                proof {
                    assert(stamp_placed(cs.len() as int, twi, lxi, lyi, i as int));
                }
                char_to_map(chars[i], tx + ox, ty + oy, build_data);
            }
            proof {
                let n = i as int;
                let placed = stamp_placed(cs.len() as int, twi, lxi, lyi, n);
                assert(stamp_spawns(cs, twi, oxi, oyi, lxi, lyi, n + 1) == if placed && char_spawn(cs[n]) is Some {
                    stamp_spawns(cs, twi, oxi, oyi, lxi, lyi, n).push((((n % twi + oxi) as i32, (n / twi + oyi) as i32), char_spawn(cs[n])->0))
                } else {
                    stamp_spawns(cs, twi, oxi, oyi, lxi, lyi, n)
                });
                assert(build_data.spawn_list@ =~= b0.spawn_list@ + stamp_spawns(cs, twi, oxi, oyi, lxi, lyi, n + 1));
                assert forall|x: int, y: int| #![trigger build_data.map.tile(x, y)] build_data.map.on_map(x, y) implies build_data.map.tile(x, y)
                    == stamped_tile(cs, twi, thi, oxi, oyi, lxi, lyi, n + 1, x, y, b0.map.tile(x, y)) by {
                    assert(before.map.tile(x, y) == stamped_tile(cs, twi, thi, oxi, oyi, lxi, lyi, n, x, y, b0.map.tile(x, y)));
                    if stamp_hit(cs, twi, thi, oxi, oyi, lxi, lyi, n + 1, n, x, y) {
                        let k1 = choose|k: int| #[trigger] stamp_hit(cs, twi, thi, oxi, oyi, lxi, lyi, n + 1, k, x, y);
                        lemma_stamp_injective(twi, k1, n);
                    } else {
                        if exists|k: int| #[trigger] stamp_hit(cs, twi, thi, oxi, oyi, lxi, lyi, n + 1, k, x, y) {
                            let k1 = choose|k: int| #[trigger] stamp_hit(cs, twi, thi, oxi, oyi, lxi, lyi, n + 1, k, x, y);
                            assert(stamp_hit(cs, twi, thi, oxi, oyi, lxi, lyi, n, k1, x, y));
                            let k0 = choose|k: int| #[trigger] stamp_hit(cs, twi, thi, oxi, oyi, lxi, lyi, n, k, x, y);
                            lemma_stamp_injective(twi, k0, k1);
                        }
                        if exists|k: int| #[trigger] stamp_hit(cs, twi, thi, oxi, oyi, lxi, lyi, n, k, x, y) {
                            let k0 = choose|k: int| #[trigger] stamp_hit(cs, twi, thi, oxi, oyi, lxi, lyi, n, k, x, y);
                            assert(stamp_hit(cs, twi, thi, oxi, oyi, lxi, lyi, n + 1, k0, x, y));
                        }
                    }
                }
            }
            i = i + 1;
            tx = tx + 1;
        }
        assert((ty + 1) * tw == ty * tw + tw) by (nonlinear_arith);
        ty = ty + 1;
    }
    assert(th * tw == tw * th) by (nonlinear_arith);
}


/// The tile that every cell of a template `tw` wide, laid at `(ox, oy)` with its first
/// `lx` columns and `ly` rows kept, leaves at `(x, y)` over `old`: the whole template laid.
pub open spec fn template_tile(chars: Seq<char>, tw: int, th: int, ox: int, oy: int, lx: int, ly: int, x: int, y: int, old: TileType) -> TileType {
    stamped_tile(chars, tw, th, ox, oy, lx, ly, tw * th, x, y, old)
}

/// What every prefab step keeps: a well-formed map of the same size, depth, visibility and
/// stains, and the same rooms and corridors.
pub open spec fn frame_kept(old: BuilderMap, new: BuilderMap) -> bool {
    &&& new.wf()
    &&& new.map.same_frame(old.map)
    &&& new.rooms == old.rooms
    &&& new.corridors == old.corridors
    &&& new.width == old.width
    &&& new.height == old.height
}

/// A whole level has been laid from the map's corner: tiles, spawns and start.
pub open spec fn level_laid(level: PrefabLevel, old: BuilderMap, new: BuilderMap) -> bool {
    let cells = ascii_cells(level.template@);
    let (w, h) = (level.width as int, level.height as int);
    let (mw, mh) = (old.width as int, old.height as int);
    &&& forall|x: int, y: int| #![trigger new.map.tile(x, y)] new.map.on_map(x, y)
        ==> new.map.tile(x, y) == template_tile(cells, w, h, 0, 0, mw, mh, x, y, old.map.tile(x, y))
    &&& new.spawn_list@ == old.spawn_list@ + stamp_spawns(cells, w, 0, 0, mw, mh, w * h)
    &&& new.starting_position == stamp_start(cells, w, 0, 0, mw, mh, w * h, old.starting_position)
}

/// Lays a whole hand-drawn level from the map's top-left corner; cells that fall beyond the
/// map's edge are skipped.
pub fn load_ascii_map(level: &PrefabLevel, build_data: &mut BuilderMap)
    requires
        old(build_data).wf(),
        level.width * level.height <= usize::MAX,
    ensures
        frame_kept(*old(build_data), *final(build_data)),
        level_laid(*level, *old(build_data), *final(build_data)),
{
    let chars = read_ascii_to_vec(level.template);
    if level.width == 0 {
        assert(build_data.spawn_list@ + Seq::empty() =~= build_data.spawn_list@);
        return;
    }
    let lx = build_data.map.width as usize;
    let ly = build_data.map.height as usize;
    stamp(&chars, level.width, level.height, 0, 0, lx, ly, build_data);
}

/// One layer of a REX Paint image: its size and, for each cell, column by column (the cell
/// at `(x, y)` is at `x * height + y`), its glyph and its foreground and background colours.
#[derive(Clone, Debug)]
pub struct RexLayer {
    pub width: usize,
    pub height: usize,
    pub glyphs: Vec<u32>,
    pub fg: Vec<(u8, u8, u8)>,
    pub bg: Vec<(u8, u8, u8)>,
}

impl RexLayer {
    /// There is one glyph and one pair of colours per cell.
    pub open spec fn wf(&self) -> bool {
        &&& self.glyphs@.len() == self.width * self.height
        &&& self.fg@.len() == self.width * self.height
        &&& self.bg@.len() == self.width * self.height
    }
}

/// A layer as plain values: width, height, glyphs, foreground and background colours.
pub open spec fn rex_layer_view(l: RexLayer) -> (usize, usize, Seq<u32>, Seq<(u8, u8, u8)>, Seq<(u8, u8, u8)>) {
    (l.width, l.height, l.glyphs@, l.fg@, l.bg@)
}

/// The layers of a decoded image, or `None`, as plain values.
pub open spec fn rex_result_view(r: Option<Vec<RexLayer>>) -> Option<Seq<(usize, usize, Seq<u32>, Seq<(u8, u8, u8)>, Seq<(u8, u8, u8)>)>> {
    match r {
        Some(ls) => Some(ls@.map_values(|l: RexLayer| rex_layer_view(l))),
        None => None,
    }
}

/// What `bracket-rex`'s `XpFile::read` makes of these bytes: the layers of the REX Paint
/// image (width, height, and each cell's glyph and colours, column by column), or `None`
/// when it reports an error.
pub uninterp spec fn rex_image_layers(bytes: Seq<u8>) -> Option<Seq<(usize, usize, Seq<u32>, Seq<(u8, u8, u8)>, Seq<(u8, u8, u8)>)>>;

/// Decodes REX Paint bytes with `XpFile::read` of `bracket-rex` (a gzip stream; then a
/// version, the number of layers and, for each layer, its size and its cells column by
/// column). Claimed of the outside code: the result depends on the bytes alone and is named,
/// not stated; an error gives `None`; each layer it reads holds one cell per position.
/// Left unsaid: an image whose header declares more cells than memory can hold makes the
/// reader's allocation fail rather than return.
#[verifier::external_body]
fn read_rex_layers(bytes: &Vec<u8>) -> (layers: Option<Vec<RexLayer>>)
    ensures
        rex_result_view(layers) == rex_image_layers(bytes@),
        layers matches Some(ls) ==> layers_wf(ls@),
{
    let mut slice: &[u8] = bytes.as_slice();
    match bracket_lib::prelude::XpFile::read(&mut slice) {
        Ok(xp) => Some(xp.layers.iter().map(|l| RexLayer {
            width: l.width,
            height: l.height,
            glyphs: l.cells.iter().map(|c| c.ch).collect(),
            fg: l.cells.iter().map(|c| (c.fg.r, c.fg.g, c.fg.b)).collect(),
            bg: l.cells.iter().map(|c| (c.bg.r, c.bg.g, c.bg.b)).collect(),
        }).collect()),
        Err(_) => None,
    }
}

/// Decodes a REX Paint image from its bytes: its layers, each with one glyph and one pair of
/// colours per cell, or `None` when the bytes are not such an image.
pub fn rex_image(bytes: &Vec<u8>) -> (layers: Option<Vec<RexLayer>>)
    ensures
        rex_result_view(layers) == rex_image_layers(bytes@),
        layers matches Some(ls) ==> layers_wf(ls@),
{
    read_rex_layers(bytes)
}

/// The character a glyph is read as: its low byte.
pub open spec fn glyph_char(g: u32) -> char {
    ((g % 256) as u8) as char
}

/// The cells of a layer row by row, as a template `width` wide.
pub open spec fn rex_cells(layer: RexLayer) -> Seq<char> {
    Seq::new((layer.width * layer.height) as nat, |k: int|
        glyph_char(layer.glyphs@[(k % (layer.width as int)) * layer.height + k / (layer.width as int)]))
}

/// Reads a layer's glyphs into a template, row by row.
fn rex_layer_cells(layer: &RexLayer) -> (cells: Vec<char>)
    requires
        layer.wf(),
        0 < layer.width,
    ensures
        cells@ == rex_cells(*layer),
{
    let w = layer.width;
    let h = layer.height;
    let ghost target = rex_cells(*layer);
    let mut cells: Vec<char> = Vec::new();
    let mut y: usize = 0;
    while y < h
        invariant
            w == layer.width,
            h == layer.height,
            layer.wf(),
            0 < w,
            target == rex_cells(*layer),
            y <= h,
            cells@.len() == y * w,
            forall|k: int| 0 <= k < cells@.len() ==> cells@[k] == #[trigger] target[k],
        decreases h - y,
    {
        let mut x: usize = 0;
        while x < w
            invariant
                w == layer.width,
                h == layer.height,
                layer.wf(),
                0 < w,
                target == rex_cells(*layer),
                y < h,
                x <= w,
                cells@.len() == y * w + x,
                forall|k: int| 0 <= k < cells@.len() ==> cells@[k] == #[trigger] target[k],
            decreases w - x,
        {
            proof {
                lemma_cell_index(w as int, x as int, y as int);
                assert(x * h + y < w * h) by (nonlinear_arith) requires x < w, y < h;
                assert(y * w + x < w * h) by (nonlinear_arith) requires x < w, y < h;
                assert(x * h + y < layer.glyphs@.len());
                assert(layer.glyphs@.len() == layer.glyphs.len());
            }
            let g = layer.glyphs[x * h + y];
            let c = ((g % 256) as u8) as char;
            let ghost k = cells@.len() as int;
            cells.push(c);
            proof {
                assert(target[k] == glyph_char(layer.glyphs@[(k % (w as int)) * h + k / (w as int)]));
            }
            x = x + 1;
        }
        assert((y + 1) * w == y * w + w) by (nonlinear_arith);
        y = y + 1;
    }
    assert(h * w == w * h) by (nonlinear_arith);
    assert(cells@ =~= target);
    cells
}


/// The tile at `(x, y)` after the first `n` layers of an image are laid over `old` from the
/// map's corner, each keeping its first `lx` columns and `ly` rows.
pub open spec fn rex_tile(layers: Seq<RexLayer>, n: int, lx: int, ly: int, x: int, y: int, old: TileType) -> TileType
    decreases n,
{
    if n <= 0 {
        old
    } else {
        let l = layers[n - 1];
        template_tile(rex_cells(l), l.width as int, l.height as int, 0, 0, lx, ly, x, y, rex_tile(layers, n - 1, lx, ly, x, y, old))
    }
}

/// The spawns the first `n` layers of an image add, in order.
pub open spec fn rex_spawns(layers: Seq<RexLayer>, n: int, lx: int, ly: int) -> Seq<((i32, i32), EntityType)>
    decreases n,
{
    if n <= 0 {
        Seq::empty()
    } else {
        let l = layers[n - 1];
        rex_spawns(layers, n - 1, lx, ly) + stamp_spawns(rex_cells(l), l.width as int, 0, 0, lx, ly, l.width * l.height)
    }
}

/// The starting position after the first `n` layers of an image are laid.
pub open spec fn rex_start(layers: Seq<RexLayer>, n: int, lx: int, ly: int, start: Option<Position>) -> Option<Position>
    decreases n,
{
    if n <= 0 {
        start
    } else {
        let l = layers[n - 1];
        stamp_start(rex_cells(l), l.width as int, 0, 0, lx, ly, l.width * l.height, rex_start(layers, n - 1, lx, ly, start))
    }
}

/// All layers of an image have been laid from the map's corner, one over the other.
pub open spec fn rex_laid(layers: Seq<RexLayer>, old: BuilderMap, new: BuilderMap) -> bool {
    let (mw, mh) = (old.width as int, old.height as int);
    &&& forall|x: int, y: int| #![trigger new.map.tile(x, y)] new.map.on_map(x, y)
        ==> new.map.tile(x, y) == rex_tile(layers, layers.len() as int, mw, mh, x, y, old.map.tile(x, y))
    &&& new.spawn_list@ == old.spawn_list@ + rex_spawns(layers, layers.len() as int, mw, mh)
    &&& new.starting_position == rex_start(layers, layers.len() as int, mw, mh, old.starting_position)
}

/// Every layer has one glyph per cell.
pub open spec fn layers_wf(layers: Seq<RexLayer>) -> bool {
    forall|i: int| 0 <= i < layers.len() ==> (#[trigger] layers[i]).wf()
}

/// Lays the layers of a REX Paint image, one over the other, from the map's top-left
/// corner; cells beyond the map's edge are skipped.
pub fn load_rex_map(layers: &Vec<RexLayer>, build_data: &mut BuilderMap)
    requires
        old(build_data).wf(),
        layers_wf(layers@),
    ensures
        frame_kept(*old(build_data), *final(build_data)),
        rex_laid(layers@, *old(build_data), *final(build_data)),
{
    let ghost b0 = *build_data;
    let ghost (lx, ly) = (b0.width as int, b0.height as int);
    let mut i: usize = 0;
    while i < layers.len()
        invariant
            b0.wf(),
            lx == b0.width && ly == b0.height,
            forall|j: int| 0 <= j < layers@.len() ==> (#[trigger] layers@[j]).wf(),
            i <= layers@.len(),
            build_data.wf(),
            build_data.map.same_frame(b0.map),
            build_data.rooms == b0.rooms,
            build_data.corridors == b0.corridors,
            build_data.width == b0.width,
            build_data.height == b0.height,
            forall|x: int, y: int| #![trigger build_data.map.tile(x, y)] build_data.map.on_map(x, y) ==> build_data.map.tile(x, y)
                == rex_tile(layers@, i as int, lx, ly, x, y, b0.map.tile(x, y)),
            build_data.spawn_list@ == b0.spawn_list@ + rex_spawns(layers@, i as int, lx, ly),
            build_data.starting_position == rex_start(layers@, i as int, lx, ly, b0.starting_position),
        decreases layers@.len() - i,
    {
        let layer = &layers[i];
        let ghost before = *build_data;
        proof {
            assert(layer.wf());
            assert(layer.glyphs@.len() == layer.glyphs.len());
        }
        if layer.width > 0 {
            let cells = rex_layer_cells(layer);
            let mw = build_data.map.width as usize;
            let mh = build_data.map.height as usize;
            stamp(&cells, layer.width, layer.height, 0, 0, mw, mh, build_data);
        } else {
            assert forall|x: int, y: int| #![trigger build_data.map.tile(x, y)] build_data.map.on_map(x, y) implies build_data.map.tile(x, y)
                == template_tile(rex_cells(*layer), 0, layer.height as int, 0, 0, lx, ly, x, y, before.map.tile(x, y)) by {
            }
            assert(before.spawn_list@ + Seq::empty() =~= before.spawn_list@);
        }
        proof {
            assert(b0.spawn_list@ + rex_spawns(layers@, i + 1, lx, ly) =~= (b0.spawn_list@ + rex_spawns(layers@, i as int, lx, ly))
                + stamp_spawns(rex_cells(*layer), layer.width as int, 0, 0, lx, ly, layer.width * layer.height));
        }
        i = i + 1;
    }
}


/// A tile lies outside the box from `(x1, y1)` to `(x2, y2)`, edges included.
pub open spec fn outside_box(p: (i32, i32), x1: int, y1: int, x2: int, y2: int) -> bool {
    p.0 < x1 || p.0 > x2 || p.1 < y1 || p.1 > y2
}

/// The spawns of `s` that lie outside the box from `(x1, y1)` to `(x2, y2)`, in order.
pub open spec fn spawns_outside(s: Seq<((i32, i32), EntityType)>, x1: int, y1: int, x2: int, y2: int) -> Seq<((i32, i32), EntityType)> {
    s.filter(|e: ((i32, i32), EntityType)| outside_box(e.0, x1, y1, x2, y2))
}

/// Drops the spawns that lie in the box from `(x1, y1)` to `(x2, y2)`, edges included,
/// and keeps the others in order.
pub fn retain_spawns_outside(list: &mut SpawnList, x1: i64, y1: i64, x2: i64, y2: i64)
    ensures
        final(list)@ == spawns_outside(old(list)@, x1 as int, y1 as int, x2 as int, y2 as int),
{
    let ghost (a, b, c, d) = (x1 as int, y1 as int, x2 as int, y2 as int);
    let mut kept: SpawnList = Vec::new();
    let mut i: usize = 0;
    while i < list.len()
        invariant
            a == x1 && b == y1 && c == x2 && d == y2,
            i <= list@.len(),
            kept@ == spawns_outside(list@.subrange(0, i as int), a, b, c, d),
        decreases list@.len() - i,
    {
        let e = list[i];
        proof {
            reveal(Seq::filter);
            assert(list@.subrange(0, i + 1).drop_last() =~= list@.subrange(0, i as int));
            assert(list@.subrange(0, i + 1).last() == e);
        }
        let (px, py) = e.0;
        let px = px as i64;
        let py = py as i64;
        if px < x1 || px > x2 || py < y1 || py > y2 {
            kept.push(e);
        }
        i = i + 1;
    }
    assert(list@.subrange(0, list@.len() as int) =~= list@);
    *list = kept;
}

/// Where a section's left column goes on a map `mw` wide.
pub open spec fn section_x(p: HorizontalPlacement, mw: int, w: int) -> int {
    match p {
        HorizontalPlacement::Left => 0,
        HorizontalPlacement::Center => mw / 2 - w / 2,
        HorizontalPlacement::Right => (mw - 1) - w,
    }
}

/// Where a section's top row goes on a map `mh` high.
pub open spec fn section_y(p: VerticalPlacement, mh: int, h: int) -> int {
    match p {
        VerticalPlacement::Top => 0,
        VerticalPlacement::Center => mh / 2 - h / 2,
        VerticalPlacement::Bottom => (mh - 1) - h,
    }
}

/// Every cell of the template that is laid down (within the map's width and height, counted
/// from the template's own corner, and with a character in the template) lands on the map
/// when the template's corner is at `(ox, oy)`.
pub open spec fn template_lands(chars: Seq<char>, tw: int, th: int, ox: int, oy: int, m: GameMap) -> bool {
    forall|k: int| 0 <= k < tw * th && #[trigger] stamp_placed(chars.len() as int, tw, m.width as int, m.height as int, k)
        ==> 0 <= ox && 0 <= oy && m.on_map(k % tw + ox, k / tw + oy)
}

/// A section has been laid at its place, after the spawns under it were dropped.
pub open spec fn section_laid(section: PrefabSection, old: BuilderMap, new: BuilderMap) -> bool {
    let cx = section_x(section.placement.0, old.width as int, section.width as int);
    let cy = section_y(section.placement.1, old.height as int, section.height as int);
    let cells = ascii_cells(section.template@);
    let (w, h) = (section.width as int, section.height as int);
    let (mw, mh) = (old.width as int, old.height as int);
    &&& forall|x: int, y: int| #![trigger new.map.tile(x, y)] new.map.on_map(x, y)
        ==> new.map.tile(x, y) == template_tile(cells, w, h, cx, cy, mw, mh, x, y, old.map.tile(x, y))
    &&& new.spawn_list@ == spawns_outside(old.spawn_list@, cx, cy, cx + w, cy + h) + stamp_spawns(cells, w, cx, cy, mw, mh, w * h)
    &&& new.starting_position == stamp_start(cells, w, cx, cy, mw, mh, w * h, old.starting_position)
}

/// A section can be laid on this map: its size fits the coordinates, and every cell laid
/// lands on the map.
pub open spec fn section_fits(section: PrefabSection, bd: BuilderMap) -> bool {
    &&& section.width <= i32::MAX
    &&& section.height <= i32::MAX
    &&& section.width * section.height <= usize::MAX
    &&& template_lands(ascii_cells(section.template@), section.width as int, section.height as int,
        section_x(section.placement.0, bd.width as int, section.width as int),
        section_y(section.placement.1, bd.height as int, section.height as int), bd.map)
}

/// Lays a hand-drawn section at its side or the middle of the map, first dropping the
/// spawns that lie under it (its far edges included).
pub fn apply_sectional(section: &PrefabSection, build_data: &mut BuilderMap)
    requires
        old(build_data).wf(),
        section_fits(*section, *old(build_data)),
    ensures
        frame_kept(*old(build_data), *final(build_data)),
        section_laid(*section, *old(build_data), *final(build_data)),
{
    let ghost b0 = *build_data;
    let chars = read_ascii_to_vec(section.template);
    let w = section.width as i32;
    let h = section.height as i32;
    let mw = build_data.map.width;
    let mh = build_data.map.height;
    let chunk_x: i32 = match section.placement.0 {
        HorizontalPlacement::Left => 0,
        HorizontalPlacement::Center => (mw / 2) - (w / 2),
        HorizontalPlacement::Right => (mw - 1) - w,
    };
    let chunk_y: i32 = match section.placement.1 {
        VerticalPlacement::Top => 0,
        VerticalPlacement::Center => (mh / 2) - (h / 2),
        VerticalPlacement::Bottom => (mh - 1) - h,
    };
    retain_spawns_outside(&mut build_data.spawn_list, chunk_x as i64, chunk_y as i64,
        chunk_x as i64 + w as i64, chunk_y as i64 + h as i64);
    build_data.take_snapshot();
    let ghost b1 = *build_data;
    let ghost cells = chars@;
    let ghost (wi, hi, cxi, cyi, mwi, mhi) = (w as int, h as int, chunk_x as int, chunk_y as int, mw as int, mh as int);
    if section.width == 0 || chunk_x < 0 || chunk_y < 0 {
        proof {
            assert forall|k: int| !(0 <= k < wi * hi && #[trigger] stamp_placed(cells.len() as int, wi, mwi, mhi, k)) by {
                if 0 <= k < wi * hi && stamp_placed(cells.len() as int, wi, mwi, mhi, k) {
                    if wi == 0 {
                        assert(wi * hi == 0) by (nonlinear_arith) requires wi == 0;
                    }
                }
            }
            assert forall|n: int| 0 <= n <= wi * hi implies stamp_spawns(cells, wi, cxi, cyi, mwi, mhi, n) == Seq::<((i32, i32), EntityType)>::empty()
                && stamp_start(cells, wi, cxi, cyi, mwi, mhi, n, b1.starting_position) == b1.starting_position by {
                lemma_no_cells_laid(cells, wi, hi, cxi, cyi, mwi, mhi, n, b1.starting_position);
            }
            assert(0 <= wi * hi) by (nonlinear_arith) requires 0 <= wi, 0 <= hi;
            assert(b1.spawn_list@ + Seq::empty() =~= b1.spawn_list@);
            assert(stamp_spawns(cells, wi, cxi, cyi, mwi, mhi, wi * hi) == Seq::<((i32, i32), EntityType)>::empty());
            assert(build_data.spawn_list@ == b1.spawn_list@ + stamp_spawns(cells, wi, cxi, cyi, mwi, mhi, wi * hi));
            assert(build_data.starting_position == stamp_start(cells, wi, cxi, cyi, mwi, mhi, wi * hi, b0.starting_position));
            assert forall|x: int, y: int| #![trigger build_data.map.tile(x, y)] build_data.map.on_map(x, y)
                implies build_data.map.tile(x, y) == template_tile(cells, wi, hi, cxi, cyi, mwi, mhi, x, y, b0.map.tile(x, y)) by {
                if exists|k: int| #[trigger] stamp_hit(cells, wi, hi, cxi, cyi, mwi, mhi, wi * hi, k, x, y) {
                    let k = choose|k: int| #[trigger] stamp_hit(cells, wi, hi, cxi, cyi, mwi, mhi, wi * hi, k, x, y);
                    assert(stamp_placed(cells.len() as int, wi, mwi, mhi, k));
                }
            }
        }
        return;
    }
    stamp(&chars, section.width, section.height, chunk_x as usize, chunk_y as usize, mw as usize, mh as usize, build_data);
    build_data.take_snapshot();
}

/// When no cell of a template is laid down, laying its first `n` cells adds no spawn and
/// leaves the starting position as it was.
proof fn lemma_no_cells_laid(cells: Seq<char>, w: int, h: int, ox: int, oy: int, lx: int, ly: int, n: int, start: Option<Position>)
    requires
        n <= w * h,
        forall|k: int| !(0 <= k < w * h && #[trigger] stamp_placed(cells.len() as int, w, lx, ly, k)),
    ensures
        stamp_spawns(cells, w, ox, oy, lx, ly, n) == Seq::<((i32, i32), EntityType)>::empty(),
        stamp_start(cells, w, ox, oy, lx, ly, n, start) == start,
    decreases n,
{
    if n > 0 {
        lemma_no_cells_laid(cells, w, h, ox, oy, lx, ly, n - 1, start);
        assert(!stamp_placed(cells.len() as int, w, lx, ly, n - 1));
    }
}


/// Every tile of the `vw` by `vh` window with its corner at `(x, y)` is floor.
pub open spec fn window_floor(m: GameMap, x: int, y: int, vw: int, vh: int) -> bool {
    forall|a: int, b: int| x <= a < x + vw && y <= b < y + vh ==> #[trigger] m.tile(a, b) == TileType::Floor
}

/// A vault of `vw` by `vh` fits with its corner at `(x, y)`: it stays clear of the two
/// columns and rows along the far edges, and covers only floor.
pub open spec fn vault_spot(m: GameMap, vw: int, vh: int, x: int, y: int) -> bool {
    &&& x + vw < m.width - 2
    &&& y + vh < m.height - 2
    &&& window_floor(m, x, y, vw, vh)
}

/// The spots among the first `n` tiles, taken row by row, where a vault fits, in that order.
pub open spec fn vault_spots(m: GameMap, vw: int, vh: int, n: int) -> Seq<Position>
    decreases n,
{
    if n <= 0 {
        Seq::empty()
    } else {
        let prev = vault_spots(m, vw, vh, n - 1);
        let (x, y) = ((n - 1) % (m.width as int), (n - 1) / (m.width as int));
        if vault_spot(m, vw, vh, x, y) {
            prev.push(Position { x: x as i32, y: y as i32 })
        } else {
            prev
        }
    }
}

/// Whether every tile of the `vw` by `vh` window with its corner at `(x, y)` is floor.
fn window_all_floor(map: &GameMap, x: usize, y: usize, vw: usize, vh: usize) -> (r: bool)
    requires
        map.wf(),
        x + vw <= map.width,
        y + vh <= map.height,
    ensures
        r == window_floor(*map, x as int, y as int, vw as int, vh as int),
{
    let mut ok = true;
    let mut ty: usize = 0;
    while ty < vh
        invariant
            map.wf(),
            x + vw <= map.width,
            y + vh <= map.height,
            ty <= vh,
            ok == (forall|a: int, b: int| x <= a < x + vw && y <= b < y + ty ==> #[trigger] map.tile(a, b) == TileType::Floor),
        decreases vh - ty,
    {
        let mut tx: usize = 0;
        while tx < vw
            invariant
                map.wf(),
                x + vw <= map.width,
                y + vh <= map.height,
                ty < vh,
                tx <= vw,
                ok == (forall|a: int, b: int| (x <= a < x + vw && y <= b < y + ty) || (x <= a < x + tx && b == y + ty)
                    ==> #[trigger] map.tile(a, b) == TileType::Floor),
            decreases vw - tx,
        {
            if map.tiles[tx + x][ty + y] != TileType::Floor {
                ok = false;
            }
            proof {
                assert(map.tile((tx + x) as int, (ty + y) as int) == map.tiles@[tx + x]@[ty + y as int]);
            }
            tx = tx + 1;
        }
        ty = ty + 1;
    }
    ok
}

/// The spots, row by row, where a vault of `vw` by `vh` fits on the map.
pub fn vault_positions(map: &GameMap, vw: usize, vh: usize) -> (positions: Vec<Position>)
    requires
        map.wf(),
    ensures
        positions@ == vault_spots(*map, vw as int, vh as int, map.width * map.height),
        positions@.len() <= map.width * map.height,
        forall|j: int| 0 <= j < positions@.len() ==> vault_spot(*map, vw as int, vh as int, #[trigger] positions@[j].x as int, positions@[j].y as int),
        forall|j: int| 0 <= j < positions@.len() ==> 0 <= #[trigger] positions@[j].x && 0 <= positions@[j].y,
{
    let w = map.width as usize;
    let h = map.height as usize;
    let mut positions: Vec<Position> = Vec::new();
    let mut y: usize = 0;
    let ghost mut n: int = 0;
    while y < h
        invariant
            map.wf(),
            w == map.width,
            h == map.height,
            y <= h,
            n == y * w,
            positions@ == vault_spots(*map, vw as int, vh as int, n),
            positions@.len() <= n,
            forall|j: int| 0 <= j < positions@.len() ==> vault_spot(*map, vw as int, vh as int, #[trigger] positions@[j].x as int, positions@[j].y as int),
            forall|j: int| 0 <= j < positions@.len() ==> 0 <= #[trigger] positions@[j].x && 0 <= positions@[j].y,
        decreases h - y,
    {
        let mut x: usize = 0;
        while x < w
            invariant
                map.wf(),
                w == map.width,
                h == map.height,
                y < h,
                x <= w,
                n == y * w + x,
                positions@ == vault_spots(*map, vw as int, vh as int, n),
                positions@.len() <= n,
                forall|j: int| 0 <= j < positions@.len() ==> vault_spot(*map, vw as int, vh as int, #[trigger] positions@[j].x as int, positions@[j].y as int),
                forall|j: int| 0 <= j < positions@.len() ==> 0 <= #[trigger] positions@[j].x && 0 <= positions@[j].y,
            decreases w - x,
        {
            proof {
                lemma_cell_index(w as int, x as int, y as int);
            }
            if x + 2 < w && vw < w - 2 - x && y + 2 < h && vh < h - 2 - y {
                if window_all_floor(map, x, y, vw, vh) {
                    let p = Position { x: x as i32, y: y as i32 };
                    assert(p.x >= 0 && p.y >= 0);
                    let ghost before = positions@;
                    positions.push(p);
                    assert(forall|j: int| 0 <= j < before.len() ==> positions@[j] == before[j]);
                }
            }
            proof {
                n = n + 1;
            }
            x = x + 1;
        }
        assert((y + 1) * w == y * w + w) by (nonlinear_arith);
        y = y + 1;
    }
    assert(h * w == w * h) by (nonlinear_arith);
    positions
}

/// Whether vaults can appear at this depth: the depths the vault list covers.
pub open spec fn vault_depth(depth: i32) -> bool {
    0 <= depth <= 100
}

/// What holds whatever the dice gave when vaults are dropped: only floor tiles change, and
/// away from the depths vaults appear at, nothing changes.
pub open spec fn vaults_laid(old: BuilderMap, new: BuilderMap) -> bool {
    &&& forall|x: int, y: int| #![trigger new.map.tile(x, y)] new.map.on_map(x, y)
        && new.map.tile(x, y) != old.map.tile(x, y) ==> old.map.tile(x, y) == TileType::Floor
    &&& !vault_depth(old.map.depth) ==> new.map.tiles == old.map.tiles && new.spawn_list == old.spawn_list
        && new.starting_position == old.starting_position
}

/// Vaults can be dropped on this map: the depth leaves room for the roll, and where vaults
/// appear the map is at least two tiles wide and high.
pub open spec fn vaults_fit(bd: BuilderMap) -> bool {
    &&& bd.map.depth <= i32::MAX - 6
    &&& vault_depth(bd.map.depth) ==> bd.width >= 2 && bd.height >= 2
}

/// The vaults that can be dropped, in the order they are listed.
pub open spec fn vault_list() -> Seq<PrefabRoom> {
    seq![trap_room(), chickfila_room(), checkerboard_room(), well_room()]
}

/// Vault `v` has been laid with its corner at `p`, a spot where it covers only floor, after
/// the spawns under it (its far edges included) were dropped.
pub open spec fn vault_laid_at(old: BuilderMap, new: BuilderMap, v: PrefabRoom, p: Position) -> bool {
    let (vw, vh, px, py) = (v.width as int, v.height as int, p.x as int, p.y as int);
    let cells = ascii_cells(v.template@);
    &&& vault_spot(old.map, vw, vh, px, py)
    &&& frame_kept(old, new)
    &&& forall|x: int, y: int| #![trigger new.map.tile(x, y)] new.map.on_map(x, y)
        ==> new.map.tile(x, y) == template_tile(cells, vw, vh, px, py, vw, vh, x, y, old.map.tile(x, y))
    &&& new.spawn_list@ == spawns_outside(old.spawn_list@, px, py, px + vw, py + vh) + stamp_spawns(cells, vw, px, py, vw, vh, vw * vh)
    &&& new.starting_position == stamp_start(cells, vw, px, py, vw, vh, vw * vh, old.starting_position)
}

/// A run of vault drops: each state is the one before with a listed vault `vs[i]` laid at
/// `ps[i]`.
pub open spec fn vault_run(states: Seq<BuilderMap>, vs: Seq<PrefabRoom>, ps: Seq<Position>) -> bool {
    &&& states.len() == vs.len() + 1
    &&& ps.len() == vs.len()
    &&& forall|i: int| 0 <= i < vs.len() ==> vault_list().contains(#[trigger] vs[i])
    &&& forall|i: int| 0 <= i < vs.len() ==> #[trigger] vault_laid_at(states[i], states[i + 1], vs[i], ps[i])
}

/// Every listed vault has somewhere to go on this map.
pub open spec fn every_vault_has_a_spot(m: GameMap) -> bool {
    forall|j: int| 0 <= j < vault_list().len()
        ==> #[trigger] vault_spots(m, vault_list()[j].width as int, vault_list()[j].height as int, m.width * m.height).len() > 0
}

/// Drops up to three small vaults onto open floor, each at a spot where it covers only
/// floor, after clearing what was to spawn under it. Whether any appear, and which and
/// where, is left to the dice (a fresh generator, as in the game); deeper levels are likelier
/// to have them. Each vault laid is a listed one, at most once, at a spot where it covers only
/// floor; from depth 3 to 100, on a map with a spot for every listed vault, at least one is laid.
pub fn apply_room_vaults(build_data: &mut BuilderMap)
    requires
        old(build_data).wf(),
        vaults_fit(*old(build_data)),
    ensures
        frame_kept(*old(build_data), *final(build_data)),
        vaults_laid(*old(build_data), *final(build_data)),
        exists|states: Seq<BuilderMap>, vs: Seq<PrefabRoom>, ps: Seq<Position>| #![trigger vault_run(states, vs, ps)]
            vault_run(states, vs, ps) && states[0] == *old(build_data) && states.last() == *final(build_data)
            && vs.len() <= 3 && vs.no_duplicates()
            && (3 <= old(build_data).map.depth <= 100 && every_vault_has_a_spot(old(build_data).map) ==> vs.len() >= 1),
{
    let ghost b0 = *build_data;
    let mut rng = new_rng();
    build_data.take_snapshot();
    assert(*build_data == b0);
    let ghost mut states: Seq<BuilderMap> = seq![b0];
    let ghost mut vs: Seq<PrefabRoom> = Seq::empty();
    let ghost mut ps: Seq<Position> = Seq::empty();
    assert(vault_run(states, vs, ps));
    let depth = build_data.map.depth;
    let vault_roll = roll_dice(&mut rng, 1, 6) + depth;
    if vault_roll < 4 {
        return;
    }
    let master_vault_list = vec![trap(), chickfila(), checkerboard(), well()];
    assert(master_vault_list@ =~= vault_list());
    let mut possible_vaults: Vec<PrefabRoom> = Vec::new();
    let mut m: usize = 0;
    while m < master_vault_list.len()
        invariant
            master_vault_list@ == vault_list(),
            forall|j: int| 0 <= j < possible_vaults@.len() ==> vault_list().contains(#[trigger] possible_vaults@[j]),
            forall|j: int| 0 <= j < possible_vaults@.len() ==> exists|k: int| 0 <= k < m && #[trigger] possible_vaults@[j] == vault_list()[k],
            possible_vaults@.no_duplicates(),
            vault_depth(depth) ==> possible_vaults@.len() == m,
            forall|j: int| 0 <= j < 4 ==> 1 <= (#[trigger] master_vault_list@[j]).width <= 7 && 1 <= master_vault_list@[j].height <= 5
                && master_vault_list@[j].first_depth == 0 && master_vault_list@[j].last_depth == 100,
            m <= 4,
            possible_vaults@.len() <= m,
            forall|j: int| 0 <= j < possible_vaults@.len() ==> 1 <= (#[trigger] possible_vaults@[j]).width <= 7 && 1 <= possible_vaults@[j].height <= 5,
            !vault_depth(depth) ==> possible_vaults@.len() == 0,
        decreases 4 - m,
    {
        let v = master_vault_list[m];
        if depth >= v.first_depth && depth <= v.last_depth {
            let ghost before = possible_vaults@;
            possible_vaults.push(v);
            proof {
                assert(vault_list()[m as int] == v);
                assert forall|j: int| 0 <= j < possible_vaults@.len() implies vault_list().contains(#[trigger] possible_vaults@[j]) by {
                    if j < before.len() {
                        assert(possible_vaults@[j] == before[j]);
                    }
                }
                assert forall|j: int| 0 <= j < possible_vaults@.len() implies exists|k: int| 0 <= k < m + 1 && #[trigger] possible_vaults@[j] == vault_list()[k] by {
                    if j < before.len() {
                        assert(possible_vaults@[j] == before[j]);
                        let k = choose|k: int| 0 <= k < m && #[trigger] before[j] == vault_list()[k];
                        assert(possible_vaults@[j] == vault_list()[k]);
                    } else {
                        assert(possible_vaults@[j] == vault_list()[m as int]);
                    }
                }
                assert forall|j: int| 0 <= j < before.len() implies #[trigger] before[j] != v by {
                    let k = choose|k: int| 0 <= k < m && #[trigger] before[j] == vault_list()[k];
                    assert(vault_list()[k].width != vault_list()[m as int].width);
                }
                assert forall|a: int, b: int| 0 <= a < possible_vaults@.len() && 0 <= b < possible_vaults@.len() && a != b
                    implies possible_vaults@[a] != possible_vaults@[b] by {
                    if a < before.len() && b < before.len() {
                        assert(possible_vaults@[a] == before[a] && possible_vaults@[b] == before[b]);
                    } else if a < before.len() {
                        assert(possible_vaults@[a] == before[a]);
                    } else if b < before.len() {
                        assert(possible_vaults@[b] == before[b]);
                    }
                }
            }
        }
        m = m + 1;
    }
    if possible_vaults.len() == 0 {
        assert(vault_run(states, vs, ps));
        return;
    }
    let r = roll_dice(&mut rng, 1, 3);
    let n_vaults: i32 = if r < possible_vaults.len() as i32 { r } else { possible_vaults.len() as i32 };
    let mut i: i32 = 0;
    while i < n_vaults
        invariant
            vault_depth(depth),
            depth == b0.map.depth,
            b0.width >= 2 && b0.height >= 2,
            0 <= i <= n_vaults,
            n_vaults <= possible_vaults@.len() + i,
            possible_vaults@.len() <= 4,
            forall|j: int| 0 <= j < possible_vaults@.len() ==> 1 <= (#[trigger] possible_vaults@[j]).width <= 7 && 1 <= possible_vaults@[j].height <= 5,
            build_data.wf(),
            build_data.map.same_frame(b0.map),
            build_data.rooms == b0.rooms,
            build_data.corridors == b0.corridors,
            build_data.width == b0.width,
            build_data.height == b0.height,
            forall|x: int, y: int| #![trigger build_data.map.tile(x, y)] build_data.map.on_map(x, y)
                && build_data.map.tile(x, y) != b0.map.tile(x, y) ==> b0.map.tile(x, y) == TileType::Floor,
            forall|j: int| 0 <= j < possible_vaults@.len() ==> vault_list().contains(#[trigger] possible_vaults@[j]),
            possible_vaults@.no_duplicates(),
            vs.no_duplicates(),
            forall|a: int, b: int| 0 <= a < vs.len() && 0 <= b < possible_vaults@.len() ==> #[trigger] vs[a] != #[trigger] possible_vaults@[b],
            vault_run(states, vs, ps),
            states[0] == b0,
            states.last() == *build_data,
            vs.len() <= i,
            3 <= depth && every_vault_has_a_spot(b0.map) && i > 0 ==> vs.len() >= 1,
        decreases n_vaults - i,
    {
        let nv = possible_vaults.len();
        let vault_idx: usize = if nv == 1 { 0 } else { roll_dice(&mut rng, 1, nv as i32 - 1) as usize };
        let vault = possible_vaults[vault_idx];
        let positions = vault_positions(&build_data.map, vault.width, vault.height);
        proof {
            assert(vault_list().contains(possible_vaults@[vault_idx as int]));
            if 3 <= depth && every_vault_has_a_spot(b0.map) && vs.len() == 0 {
                assert(*build_data == states[0]);
                let k = choose|k: int| 0 <= k < vault_list().len() && vault_list()[k] == vault;
                assert(vault_spots(b0.map, vault_list()[k].width as int, vault_list()[k].height as int, b0.map.width * b0.map.height).len() > 0);
            }
        }
        if positions.len() > 0 {
            let np = positions.len();
            proof {
                assert(build_data.width * build_data.height <= 100_000_000) by (nonlinear_arith)
                    requires 0 < build_data.width <= 10_000, 0 < build_data.height <= 10_000;
            }
            let pos_idx: usize = if np == 1 { 0 } else { (roll_dice(&mut rng, 1, np as i32) - 1) as usize };
            let pos = positions[pos_idx];
            proof {
                assert(vault_spot(build_data.map, vault.width as int, vault.height as int, positions@[pos_idx as int].x as int,
                    positions@[pos_idx as int].y as int));
            }
            let ghost before = *build_data;
            let (px, py) = (pos.x as usize, pos.y as usize);
            retain_spawns_outside(&mut build_data.spawn_list, pos.x as i64, pos.y as i64,
                pos.x as i64 + vault.width as i64, pos.y as i64 + vault.height as i64);
            let chars = read_ascii_to_vec(vault.template);
            let ghost (vw, vh, pxi, pyi) = (vault.width as int, vault.height as int, px as int, py as int);
            proof {
                assert forall|k: int| 0 <= k < vw * vh && #[trigger] stamp_placed(chars@.len() as int, vw, vw, vh, k)
                    implies build_data.map.on_map(k % vw + pxi, k / vw + pyi) by {
                    assert(0 <= k % vw < vw) by (nonlinear_arith) requires 0 < vw, 0 <= k;
                    assert(0 <= k / vw < vh) by (nonlinear_arith) requires 0 < vw, 0 <= k < vw * vh;
                }
                assert(vw * vh <= 35) by (nonlinear_arith) requires 1 <= vw <= 7, 1 <= vh <= 5;
            }
            let ghost mid = *build_data;
            stamp(&chars, vault.width, vault.height, px, py, vault.width, vault.height, build_data);
            proof {
                assert forall|x: int, y: int| #![trigger build_data.map.tile(x, y)] build_data.map.on_map(x, y)
                    && build_data.map.tile(x, y) != b0.map.tile(x, y) implies b0.map.tile(x, y) == TileType::Floor by {
                    assert(mid.map.tile(x, y) == before.map.tile(x, y));
                    if exists|k: int| #[trigger] stamp_hit(chars@, vw, vh, pxi, pyi, vw, vh, vw * vh, k, x, y) {
                        let k = choose|k: int| #[trigger] stamp_hit(chars@, vw, vh, pxi, pyi, vw, vh, vw * vh, k, x, y);
                        assert(0 <= k % vw < vw) by (nonlinear_arith) requires 0 < vw, 0 <= k;
                        assert(0 <= k / vw < vh) by (nonlinear_arith) requires 0 < vw, 0 <= k < vw * vh;
                        assert(before.map.tile(x, y) == TileType::Floor);
                    }
                }
            }
            build_data.take_snapshot();
            proof {
                assert(mid.map == before.map);
                assert forall|x: int, y: int| #![trigger build_data.map.tile(x, y)] build_data.map.on_map(x, y)
                    implies build_data.map.tile(x, y) == template_tile(ascii_cells(vault.template@), vw, vh, pxi, pyi, vw, vh, x, y, before.map.tile(x, y)) by {
                    assert(mid.map.tile(x, y) == before.map.tile(x, y));
                }
                assert(vault_laid_at(before, *build_data, vault, pos));
                let ghost (s0, v0, p0) = (states, vs, ps);
                states = states.push(*build_data);
                vs = vs.push(vault);
                ps = ps.push(pos);
                assert forall|a: int, b: int| 0 <= a < vs.len() && 0 <= b < vs.len() && a != b implies vs[a] != vs[b] by {
                    if a < v0.len() && b < v0.len() {
                        assert(vs[a] == v0[a] && vs[b] == v0[b]);
                    } else if a < v0.len() {
                        assert(vs[a] == v0[a] && vs[b] == possible_vaults@[vault_idx as int]);
                    } else if b < v0.len() {
                        assert(vs[b] == v0[b] && vs[a] == possible_vaults@[vault_idx as int]);
                    }
                }
                assert forall|j: int| 0 <= j < vs.len() implies #[trigger] vault_laid_at(states[j], states[j + 1], vs[j], ps[j]) by {
                    if j < v0.len() {
                        assert(states[j] == s0[j] && states[j + 1] == s0[j + 1] && vs[j] == v0[j] && ps[j] == p0[j]);
                    }
                }
                assert forall|j: int| 0 <= j < vs.len() implies vault_list().contains(#[trigger] vs[j]) by {
                    if j < v0.len() {
                        assert(vs[j] == v0[j]);
                    }
                }
            }
            let ghost pv = possible_vaults@;
            possible_vaults.remove(vault_idx);
            proof {
                assert forall|j: int| 0 <= j < possible_vaults@.len() implies #[trigger] possible_vaults@[j]
                    == if j < vault_idx { pv[j] } else { pv[j + 1] } by {}
                assert forall|a: int, b: int| 0 <= a < possible_vaults@.len() && 0 <= b < possible_vaults@.len() && a != b
                    implies possible_vaults@[a] != possible_vaults@[b] by {
                    let a1 = if a < vault_idx { a } else { a + 1 };
                    let b1 = if b < vault_idx { b } else { b + 1 };
                    assert(possible_vaults@[a] == pv[a1] && possible_vaults@[b] == pv[b1]);
                }
                assert forall|a: int, b: int| 0 <= a < vs.len() && 0 <= b < possible_vaults@.len() implies
                    #[trigger] vs[a] != #[trigger] possible_vaults@[b] by {
                    let b1 = if b < vault_idx { b } else { b + 1 };
                    assert(possible_vaults@[b] == pv[b1]);
                    assert(b1 != vault_idx);
                    if a == vs.len() - 1 {
                        assert(vs[a] == pv[vault_idx as int]);
                    }
                }
                assert forall|j: int| 0 <= j < possible_vaults@.len() implies vault_list().contains(#[trigger] possible_vaults@[j]) by {
                    if j < vault_idx {
                        assert(possible_vaults@[j] == pv[j]);
                    } else {
                        assert(possible_vaults@[j] == pv[j + 1]);
                    }
                }
            }
        }
        i = i + 1;
    }
    assert(vault_run(states, vs, ps));
}


impl PrefabBuilder {
    /// A builder that drops vaults.
    pub fn new() -> (b: Box<PrefabBuilder>)
        ensures
            b.mode is RoomVaults,
    {
        Box::new(PrefabBuilder { mode: PrefabMode::RoomVaults })
    }

    /// A builder that lays the layers of a REX Paint image.
    pub fn rex_level(layers: Vec<RexLayer>) -> (b: Box<PrefabBuilder>)
        ensures
            b.mode == (PrefabMode::RexLevel { layers }),
    {
        Box::new(PrefabBuilder { mode: PrefabMode::RexLevel { layers } })
    }

    /// A builder that lays the level drawn in the REX Paint image with these bytes, or `None`
    /// when the bytes are not such an image.
    pub fn rex_level_from_image(bytes: &Vec<u8>) -> (b: Option<Box<PrefabBuilder>>)
        ensures
            b is Some <==> rex_image_layers(bytes@) is Some,
            b matches Some(pb) ==> (pb.mode matches PrefabMode::RexLevel { layers }
                && rex_result_view(Some(layers)) == rex_image_layers(bytes@) && layers_wf(layers@)),
    {
        match rex_image(bytes) {
            Some(layers) => Some(Self::rex_level(layers)),
            None => None,
        }
    }

    /// A builder that lays a whole hand-drawn level.
    pub fn constant(level: PrefabLevel) -> (b: Box<PrefabBuilder>)
        ensures
            b.mode == (PrefabMode::Constant { level }),
    {
        Box::new(PrefabBuilder { mode: PrefabMode::Constant { level } })
    }

    /// A builder that lays a hand-drawn section.
    pub fn sectional(section: PrefabSection) -> (b: Box<PrefabBuilder>)
        ensures
            b.mode == (PrefabMode::Sectional { section }),
    {
        Box::new(PrefabBuilder { mode: PrefabMode::Sectional { section } })
    }

    /// A builder that drops vaults.
    pub fn vaults() -> (b: Box<PrefabBuilder>)
        ensures
            b.mode is RoomVaults,
    {
        Box::new(PrefabBuilder { mode: PrefabMode::RoomVaults })
    }

    /// What the builder's mode needs of the map it works on.
    pub open spec fn fits(&self, bd: BuilderMap) -> bool {
        match self.mode {
            PrefabMode::RexLevel { layers } => layers_wf(layers@),
            PrefabMode::Constant { level } => level.width * level.height <= usize::MAX,
            PrefabMode::Sectional { section } => section_fits(section, bd),
            PrefabMode::RoomVaults => vaults_fit(bd),
        }
    }

    /// What the builder's mode does to the map.
    pub open spec fn laid(&self, old: BuilderMap, new: BuilderMap) -> bool {
        match self.mode {
            PrefabMode::RexLevel { layers } => rex_laid(layers@, old, new),
            PrefabMode::Constant { level } => level_laid(level, old, new),
            PrefabMode::Sectional { section } => section_laid(section, old, new),
            PrefabMode::RoomVaults => vaults_laid(old, new),
        }
    }

    /// Lays down what the mode says, then records the map when generation is visualised.
    /// The vault mode draws from a generator of its own, so `_rng` is not used.
    pub fn build(&mut self, _rng: &mut bracket_lib::random::RandomNumberGenerator, build_data: &mut BuilderMap)
        requires
            old(build_data).wf(),
            old(self).fits(*old(build_data)),
        ensures
            *final(self) == *old(self),
            frame_kept(*old(build_data), *final(build_data)),
            old(self).laid(*old(build_data), *final(build_data)),
    {
        match &self.mode {
            PrefabMode::RexLevel { layers } => load_rex_map(layers, build_data),
            PrefabMode::Constant { level } => load_ascii_map(level, build_data),
            PrefabMode::Sectional { section } => apply_sectional(section, build_data),
            PrefabMode::RoomVaults => apply_room_vaults(build_data),
        }
        build_data.take_snapshot();
    }
}

} // verus!
