use vstd::prelude::*;

verus! {

/// Width of a freshly made map, in tiles.
pub const MAPWIDTH: usize = 100;
/// Height of a freshly made map, in tiles.
pub const MAPHEIGHT: usize = 73;
/// Number of tiles of a freshly made map.
pub const MAPCOUNT: usize = 7300;

/// What one tile of the map is made of.
#[derive(PartialEq, Eq, Debug, Copy, Clone, Structural)]
pub enum TileType {
    Wall,
    Floor,
    DownStairs,
    Road,
    Grass,
    ShallowWater,
    DeepWater,
    WoodFloor,
    Bridge,
    Gravel,
    Moss,
}

/// Whether a creature may stand on a tile of this kind.
pub open spec fn spec_tile_walkable(t: TileType) -> bool {
    !(t == TileType::Wall || t == TileType::DeepWater)
}

/// Whether a creature may stand on a tile of this kind.
pub fn tile_walkable(t: TileType) -> (r: bool)
    ensures
        r == spec_tile_walkable(t),
{
    match t {
        TileType::Wall | TileType::DeepWater => false,
        _ => true,
    }
}

/// A grid stored column by column: `g[x][y]`, with `w` columns of `h` cells each.
pub open spec fn grid_wf<T>(g: Seq<Vec<T>>, w: int, h: int) -> bool {
    &&& g.len() == w
    &&& forall|x: int| 0 <= x < w ==> (#[trigger] g[x])@.len() == h
}

/// The number of floor tiles in one column.
pub open spec fn col_floor_count(col: Seq<TileType>) -> nat
    decreases col.len(),
{
    if col.len() == 0 {
        0
    } else {
        col_floor_count(col.drop_last()) + if col.last() == TileType::Floor {
            1nat
        } else {
            0nat
        }
    }
}

/// The number of floor tiles in a list of columns.
pub open spec fn grid_floor_count(cols: Seq<Vec<TileType>>) -> nat
    decreases cols.len(),
{
    if cols.len() == 0 {
        0
    } else {
        grid_floor_count(cols.drop_last()) + col_floor_count(cols.last()@)
    }
}

/// A level: its tiles, what the player has seen of it, and what blocks movement.
#[derive(Clone)]
pub struct GameMap {
    pub tiles: Vec<Vec<TileType>>,
    pub width: i32,
    pub height: i32,
    pub revealed_tiles: Vec<Vec<bool>>,
    pub visible_tiles: Vec<Vec<bool>>,
    pub blocked: Vec<Vec<bool>>,
    pub depth: i32,
    pub bloodstains: Vec<(i32, i32)>,
}

/// A column-major grid of `w` columns of `h` copies of `v`.
pub fn new_grid<T: Copy>(w: usize, h: usize, v: T) -> (g: Vec<Vec<T>>)
    ensures
        grid_wf(g@, w as int, h as int),
        forall|x: int, y: int| 0 <= x < w && 0 <= y < h ==> #[trigger] g@[x]@[y] == v,
{
    let mut g: Vec<Vec<T>> = Vec::new();
    let mut i: usize = 0;
    while i < w
        invariant
            i <= w,
            g@.len() == i,
            forall|x: int| 0 <= x < i ==> (#[trigger] g@[x])@.len() == h,
            forall|x: int, y: int| 0 <= x < i && 0 <= y < h ==> #[trigger] g@[x]@[y] == v,
        decreases w - i,
    {
        let mut col: Vec<T> = Vec::new();
        let mut j: usize = 0;
        while j < h
            invariant
                j <= h,
                col@.len() == j,
                forall|y: int| 0 <= y < j ==> #[trigger] col@[y] == v,
            decreases h - j,
        {
            col.push(v);
            j = j + 1;
        }
        g.push(col);
        i = i + 1;
    }
    g
}

/// Sets cell `(x, y)` of a column-major grid.
pub fn grid_set<T>(g: &mut Vec<Vec<T>>, x: usize, y: usize, v: T)
    requires
        x < old(g)@.len(),
        y < old(g)@[x as int]@.len(),
    ensures
        final(g)@.len() == old(g)@.len(),
        forall|i: int| 0 <= i < old(g)@.len() && i != x ==> #[trigger] final(g)@[i] == old(g)@[i],
        final(g)@[x as int]@ == old(g)@[x as int]@.update(y as int, v),
{
    let mut col: Vec<T> = Vec::new();
    std::mem::swap(&mut col, &mut g[x]);
    col.set(y, v);
    g.set(x, col);
}

impl GameMap {
    /// The grids all have `width` columns of `height` cells, and the size is small enough
    /// that a tile index `y * width + x` fits in an `i32`.
    pub open spec fn wf(&self) -> bool {
        &&& 0 < self.width
        &&& 0 < self.height
        &&& self.width * self.height <= i32::MAX
        &&& grid_wf(self.tiles@, self.width as int, self.height as int)
        &&& grid_wf(self.revealed_tiles@, self.width as int, self.height as int)
        &&& grid_wf(self.visible_tiles@, self.width as int, self.height as int)
        &&& grid_wf(self.blocked@, self.width as int, self.height as int)
    }

    /// Everything but the tiles is as in `other`.
    pub open spec fn same_frame(&self, other: GameMap) -> bool {
        &&& self.width == other.width
        &&& self.height == other.height
        &&& self.depth == other.depth
        &&& self.revealed_tiles == other.revealed_tiles
        &&& self.visible_tiles == other.visible_tiles
        &&& self.blocked == other.blocked
        &&& self.bloodstains == other.bloodstains
    }

    /// The tile at column `x`, row `y`.
    pub open spec fn tile(&self, x: int, y: int) -> TileType {
        self.tiles@[x]@[y]
    }

    /// The tiles as a grid of plain sequences, column by column.
    pub open spec fn grid(&self) -> Seq<Seq<TileType>> {
        self.tiles@.map_values(|c: Vec<TileType>| c@)
    }

    /// `(x, y)` lies on the map.
    pub open spec fn on_map(&self, x: int, y: int) -> bool {
        0 <= x < self.width && 0 <= y < self.height
    }

    /// The number of floor tiles on the map.
    pub open spec fn floor_count(&self) -> nat {
        grid_floor_count(self.tiles@)
    }

    /// A map of the given size, all wall, nothing revealed, visible or blocked.
    pub fn with_size(new_depth: i32, width: i32, height: i32) -> (m: GameMap)
        requires
            0 < width,
            0 < height,
            width * height <= i32::MAX,
        ensures
            m.wf(),
            m.width == width,
            m.height == height,
            m.depth == new_depth,
            m.bloodstains@.len() == 0,
            forall|x: int, y: int| m.on_map(x, y) ==> {
                &&& #[trigger] m.tile(x, y) == TileType::Wall
                &&& !m.revealed_tiles@[x]@[y]
                &&& !m.visible_tiles@[x]@[y]
                &&& !m.blocked@[x]@[y]
            },
    {
        GameMap {
            tiles: new_grid(width as usize, height as usize, TileType::Wall),
            width,
            height,
            revealed_tiles: new_grid(width as usize, height as usize, false),
            visible_tiles: new_grid(width as usize, height as usize, false),
            blocked: new_grid(width as usize, height as usize, false),
            depth: new_depth,
            bloodstains: Vec::new(),
        }
    }

    /// A copy of the tiles.
    pub fn copy_tiles(&self) -> (t: Vec<Vec<TileType>>)
        requires
            self.wf(),
        ensures
            t@.map_values(|c: Vec<TileType>| c@) == self.grid(),
            grid_wf(t@, self.width as int, self.height as int),
    {
        let w = self.width as usize;
        let mut t: Vec<Vec<TileType>> = Vec::new();
        let mut i: usize = 0;
        while i < w
            invariant
                self.wf(),
                w == self.width,
                i <= w,
                t@.len() == i,
                forall|x: int| 0 <= x < i ==> (#[trigger] t@[x])@ == self.tiles@[x]@,
            decreases w - i,
        {
            let col = &self.tiles[i];
            let mut c: Vec<TileType> = Vec::new();
            let mut j: usize = 0;
            while j < col.len()
                invariant
                    j <= col@.len(),
                    c@ == col@.subrange(0, j as int),
                decreases col@.len() - j,
            {
                c.push(col[j]);
                j = j + 1;
            }
            assert(c@ =~= col@);
            t.push(c);
            i = i + 1;
        }
        assert(t@.map_values(|c: Vec<TileType>| c@) =~= self.grid());
        t
    }

    /// A `MAPWIDTH` by `MAPHEIGHT` map at the given depth, all wall.
    pub fn new(new_depth: i32) -> (m: GameMap)
        ensures
            m.wf(),
            m.width == MAPWIDTH,
            m.height == MAPHEIGHT,
            m.depth == new_depth,
            m.bloodstains@.len() == 0,
            forall|x: int, y: int| m.on_map(x, y) ==> {
                &&& #[trigger] m.tile(x, y) == TileType::Wall
                &&& !m.revealed_tiles@[x]@[y]
                &&& !m.visible_tiles@[x]@[y]
                &&& !m.blocked@[x]@[y]
            },
    {
        GameMap::with_size(new_depth, MAPWIDTH as i32, MAPHEIGHT as i32)
    }

    /// The index of `(x, y)` in a row-major list of the map's tiles.
    pub fn xy_idx(&self, x: i32, y: i32) -> (idx: usize)
        requires
            self.wf(),
            self.on_map(x as int, y as int),
        ensures
            idx == y * self.width + x,
            idx < self.width * self.height,
    {
        proof {
            assert(y * self.width + x < self.width * self.height) by (nonlinear_arith)
                requires
                    0 <= x < self.width,
                    0 <= y < self.height,
            ;
        }
        (y as usize * self.width as usize) + x as usize
    }

    /// The tile at `(x, y)`.
    pub fn get_tile_at_pos(&self, x: i32, y: i32) -> (t: TileType)
        requires
            self.wf(),
            self.on_map(x as int, y as int),
        ensures
            t == self.tile(x as int, y as int),
    {
        self.tiles[x as usize][y as usize]
    }

    /// Sets the tile at `(x, y)`, leaving every other field and tile as it was.
    pub fn set_tile(&mut self, x: usize, y: usize, t: TileType)
        requires
            old(self).wf(),
            old(self).on_map(x as int, y as int),
        ensures
            final(self).wf(),
            final(self).tiles@ == old(self).tiles@.update(x as int, final(self).tiles@[x as int]),
            final(self).tiles@[x as int]@ == old(self).tiles@[x as int]@.update(y as int, t),
            final(self).same_frame(*old(self)),
            forall|a: int, b: int| #![trigger final(self).tile(a, b)]
                final(self).on_map(a, b) ==> final(self).tile(a, b) == if a == x && b == y { t } else { old(self).tile(a, b) },
            final(self).width == old(self).width,
            final(self).height == old(self).height,
            final(self).depth == old(self).depth,
            final(self).revealed_tiles == old(self).revealed_tiles,
            final(self).visible_tiles == old(self).visible_tiles,
            final(self).blocked == old(self).blocked,
            final(self).bloodstains == old(self).bloodstains,
    {
        let mut col: Vec<TileType> = Vec::new();
        std::mem::swap(&mut col, &mut self.tiles[x]);
        col.set(y, t);
        self.tiles.set(x, col);
    }

    /// The column of tile index `idx` (row-major).
    pub open spec fn idx_x(&self, idx: int) -> int {
        idx % (self.width as int)
    }

    /// The row of tile index `idx`.
    pub open spec fn idx_y(&self, idx: int) -> int {
        idx / (self.width as int)
    }

    /// Strictly inside the map's outer frame on the left and top, and on the map.
    pub open spec fn spec_in_bounds(&self, x: int, y: int) -> bool {
        x > 0 && x < self.width && y > 0 && y < self.height
    }

    /// Whether `(x, y)` is a tile that a path may step onto.
    pub open spec fn spec_exit_valid(&self, x: int, y: int) -> bool {
        self.spec_in_bounds(x, y) && !self.blocked@[x]@[y]
    }

    /// `blocked` holds exactly the walls.
    pub fn populate_blocked(&mut self)
        requires
            old(self).wf(),
        ensures
            final(self).wf(),
            final(self).tiles == old(self).tiles,
            final(self).width == old(self).width,
            final(self).height == old(self).height,
            final(self).depth == old(self).depth,
            final(self).revealed_tiles == old(self).revealed_tiles,
            final(self).visible_tiles == old(self).visible_tiles,
            final(self).bloodstains == old(self).bloodstains,
            forall|x: int, y: int| #![trigger final(self).blocked@[x]@[y]]
                final(self).on_map(x, y) ==> final(self).blocked@[x]@[y] == (final(self).tile(x, y) == TileType::Wall),
    {
        let w = self.width as usize;
        let h = self.height as usize;
        let mut i: usize = 0;
        while i < w
            invariant
                self.wf(),
                w == self.width,
                h == self.height,
                i <= w,
                self.tiles == old(self).tiles,
                self.width == old(self).width,
                self.height == old(self).height,
                self.depth == old(self).depth,
                self.revealed_tiles == old(self).revealed_tiles,
                self.visible_tiles == old(self).visible_tiles,
                self.bloodstains == old(self).bloodstains,
                forall|x: int, y: int| #![trigger self.blocked@[x]@[y]]
                    0 <= x < i && 0 <= y < h ==> self.blocked@[x]@[y] == (self.tile(x, y) == TileType::Wall),
            decreases w - i,
        {
            let mut j: usize = 0;
            while j < h
                invariant
                    self.wf(),
                    w == self.width,
                    h == self.height,
                    i < w,
                    j <= h,
                    self.tiles == old(self).tiles,
                    self.width == old(self).width,
                    self.height == old(self).height,
                    self.depth == old(self).depth,
                    self.revealed_tiles == old(self).revealed_tiles,
                    self.visible_tiles == old(self).visible_tiles,
                    self.bloodstains == old(self).bloodstains,
                    forall|x: int, y: int| #![trigger self.blocked@[x]@[y]]
                        0 <= x < i && 0 <= y < h ==> self.blocked@[x]@[y] == (self.tile(x, y) == TileType::Wall),
                    forall|y: int| #![trigger self.blocked@[i as int]@[y]]
                        0 <= y < j ==> self.blocked@[i as int]@[y] == (self.tile(i as int, y) == TileType::Wall),
                decreases h - j,
            {
                let wall = self.tiles[i][j] == TileType::Wall;
                grid_set(&mut self.blocked, i, j, wall);
                j = j + 1;
            }
            i = i + 1;
        }
    }

    /// Whether `(x, y)` lies strictly right of and below the outer frame's first row and
    /// column, and on the map.
    pub fn is_tile_in_bounds(&self, x: i32, y: i32) -> (r: bool)
        ensures
            r == self.spec_in_bounds(x as int, y as int),
    {
        x > 0 && x < self.width && y > 0 && y < self.height
    }

    /// Whether a path may step onto `(x, y)`: in bounds and not blocked.
    pub fn is_exit_valid(&self, x: i32, y: i32) -> (r: bool)
        requires
            self.wf(),
        ensures
            r == self.spec_exit_valid(x as int, y as int),
    {
        if !self.is_tile_in_bounds(x, y) {
            return false;
        }
        !self.blocked[x as usize][y as usize]
    }

    /// Whether tile index `idx` (row-major) blocks sight: it is a wall.
    pub fn is_opaque(&self, idx: usize) -> (r: bool)
        requires
            self.wf(),
            idx < self.width * self.height,
        ensures
            r == (self.tile(self.idx_x(idx as int), self.idx_y(idx as int)) == TileType::Wall),
    {
        proof {
            lemma_idx_on_map(self.width as int, self.height as int, idx as int);
        }
        self.tiles[idx % self.width as usize][idx / self.width as usize] == TileType::Wall
    }

    /// Whether `(x, y)` is a wall the player has seen.
    pub fn is_revealed_and_wall(&self, x: i32, y: i32) -> (r: bool)
        requires
            self.wf(),
            self.on_map(x as int, y as int),
        ensures
            r == (self.tile(x as int, y as int) == TileType::Wall && self.revealed_tiles@[x as int]@[y as int]),
    {
        self.tiles[x as usize][y as usize] == TileType::Wall && self.revealed_tiles[x as usize][y as usize]
    }

    /// The number of floor tiles on the map.
    pub fn get_total_floor_tiles(&self) -> (n: usize)
        requires
            self.wf(),
        ensures
            n == self.floor_count(),
    {
        let w = self.width as usize;
        let h = self.height as usize;
        let mut total: usize = 0;
        let mut i: usize = 0;
        while i < w
            invariant
                self.wf(),
                w == self.width,
                h == self.height,
                i <= w,
                total == grid_floor_count(self.tiles@.subrange(0, i as int)),
                total <= i * h,
            decreases w - i,
        {
            let col = &self.tiles[i];
            let mut c: usize = 0;
            let mut j: usize = 0;
            while j < h
                invariant
                    col@.len() == h,
                    j <= h,
                    c == col_floor_count(col@.subrange(0, j as int)),
                    c <= j,
                decreases h - j,
            {
                proof {
                    assert(col@.subrange(0, j + 1).drop_last() =~= col@.subrange(0, j as int));
                }
                if col[j] == TileType::Floor {
                    c = c + 1;
                }
                j = j + 1;
            }
            proof {
                assert(col@.subrange(0, h as int) =~= col@);
                assert(self.tiles@.subrange(0, i + 1).drop_last() =~= self.tiles@.subrange(0, i as int));
                assert(total + c <= (i + 1) * h) by (nonlinear_arith)
                    requires total <= i * h, c <= h;
                assert((i + 1) * h <= w * h) by (nonlinear_arith)
                    requires i < w;
            }
            total = total + c;
            i = i + 1;
        }
        proof {
            assert(self.tiles@.subrange(0, w as int) =~= self.tiles@);
        }
        total
    }
}

/// The eight steps a path may take, in the order they are offered: west, east, north,
/// south, north-west, north-east, south-west, south-east.
pub open spec fn exit_step(k: int) -> (int, int) {
    if k == 0 { (-1, 0) }
    else if k == 1 { (1, 0) }
    else if k == 2 { (0, -1) }
    else if k == 3 { (0, 1) }
    else if k == 4 { (-1, -1) }
    else if k == 5 { (1, -1) }
    else if k == 6 { (-1, 1) }
    else { (1, 1) }
}

/// The exits from tile `(x, y)` among the first `k` steps: the index of each step's
/// target that a path may enter, with whether the step is diagonal.
pub open spec fn exits_upto(m: GameMap, x: int, y: int, k: nat) -> Seq<(usize, bool)>
    decreases k,
{
    if k == 0 {
        Seq::empty()
    } else {
        let prev = exits_upto(m, x, y, (k - 1) as nat);
        let (dx, dy) = exit_step(k - 1);
        if m.spec_exit_valid(x + dx, y + dy) {
            prev.push((((y + dy) * m.width + (x + dx)) as usize, k - 1 >= 4))
        } else {
            prev
        }
    }
}

/// The four-bit pattern of revealed walls around `(x, y)`: 1 above, 2 below, 4 left, 8 right.
pub open spec fn wall_mask(m: GameMap, x: int, y: int) -> int {
    (if m.tile(x, y - 1) == TileType::Wall && m.revealed_tiles@[x]@[y - 1] { 1int } else { 0int })
    + (if m.tile(x, y + 1) == TileType::Wall && m.revealed_tiles@[x]@[y + 1] { 2int } else { 0int })
    + (if m.tile(x - 1, y) == TileType::Wall && m.revealed_tiles@[x - 1]@[y] { 4int } else { 0int })
    + (if m.tile(x + 1, y) == TileType::Wall && m.revealed_tiles@[x + 1]@[y] { 8int } else { 0int })
}

/// The code page 437 glyph that joins a wall to the revealed walls given by `mask`.
pub open spec fn glyph_for_mask(mask: int) -> u16 {
    if mask == 0 { 9 }
    else if mask == 1 || mask == 2 || mask == 3 { 186 }
    else if mask == 4 || mask == 8 || mask == 12 { 205 }
    else if mask == 5 { 188 }
    else if mask == 6 { 187 }
    else if mask == 7 { 185 }
    else if mask == 9 { 200 }
    else if mask == 10 { 201 }
    else if mask == 11 { 204 }
    else if mask == 13 { 202 }
    else if mask == 14 { 203 }
    else if mask == 15 { 206 }
    else { 35 }
}

/// The glyph drawn for a wall at `(x, y)`: `#` on the outer frame, else a line joining it
/// to the revealed walls around it.
pub open spec fn spec_wall_glyph(m: GameMap, x: int, y: int) -> u16 {
    if x < 1 || x > m.width - 2 || y < 1 || y > m.height - 2 {
        35
    } else {
        glyph_for_mask(wall_mask(m, x, y))
    }
}

impl GameMap {
    /// The tiles a path may move to from tile index `idx`, each with whether the step is
    /// diagonal (a diagonal step costs more).
    pub fn available_exits(&self, idx: usize) -> (exits: Vec<(usize, bool)>)
        requires
            self.wf(),
            idx < self.width * self.height,
        ensures
            exits@ == exits_upto(*self, self.idx_x(idx as int), self.idx_y(idx as int), 8),
    {
        proof {
            lemma_idx_on_map(self.width as int, self.height as int, idx as int);
        }
        let x = (idx % self.width as usize) as i32;
        let y = (idx / self.width as usize) as i32;
        let mut exits: Vec<(usize, bool)> = Vec::new();
        let mut k: usize = 0;
        while k < 8
            invariant
                self.wf(),
                0 <= x < self.width,
                0 <= y < self.height,
                x == self.idx_x(idx as int),
                y == self.idx_y(idx as int),
                k <= 8,
                exits@ == exits_upto(*self, x as int, y as int, k as nat),
            decreases 8 - k,
        {
            let (dx, dy): (i32, i32) = if k == 0 { (-1, 0) }
                else if k == 1 { (1, 0) }
                else if k == 2 { (0, -1) }
                else if k == 3 { (0, 1) }
                else if k == 4 { (-1, -1) }
                else if k == 5 { (1, -1) }
                else if k == 6 { (-1, 1) }
                else { (1, 1) };
            assert((dx as int, dy as int) == exit_step(k as int));
            let nx = x + dx;
            let ny = y + dy;
            if self.is_exit_valid(nx, ny) {
                let target = self.xy_idx(nx, ny);
                exits.push((target, k >= 4));
            }
            k = k + 1;
        }
        exits
    }

    /// The glyph for a wall at `(x, y)`, joined to the revealed walls around it.
    pub fn wall_glyph(&self, x: i32, y: i32) -> (g: u16)
        requires
            self.wf(),
            self.on_map(x as int, y as int),
        ensures
            g == spec_wall_glyph(*self, x as int, y as int),
    {
        if x < 1 || x > self.width - 2 || y < 1 || y > self.height - 2i32 {
            return 35;
        }
        let mut mask: u8 = 0;
        if self.is_revealed_and_wall(x, y - 1) {
            mask += 1;
        }
        if self.is_revealed_and_wall(x, y + 1) {
            mask += 2;
        }
        if self.is_revealed_and_wall(x - 1, y) {
            mask += 4;
        }
        if self.is_revealed_and_wall(x + 1, y) {
            mask += 8;
        }
        assert(mask == wall_mask(*self, x as int, y as int));
        match mask {
            0 => 9,
            1 => 186,
            2 => 186,
            3 => 186,
            4 => 205,
            5 => 188,
            6 => 187,
            7 => 185,
            8 => 205,
            9 => 200,
            10 => 201,
            11 => 204,
            12 => 205,
            13 => 202,
            14 => 203,
            15 => 206,
            _ => 35,
        }
    }

    /// Marks `(x, y)` as stained with blood; a stain is recorded once.
    pub fn add_bloodstain(&mut self, x: i32, y: i32)
        ensures
            final(self).bloodstains@.to_set() == old(self).bloodstains@.to_set().insert((x, y)),
            old(self).bloodstains@.no_duplicates() ==> final(self).bloodstains@.no_duplicates(),
            final(self).tiles == old(self).tiles,
            final(self).width == old(self).width,
            final(self).height == old(self).height,
            final(self).depth == old(self).depth,
            final(self).revealed_tiles == old(self).revealed_tiles,
            final(self).visible_tiles == old(self).visible_tiles,
            final(self).blocked == old(self).blocked,
    {
        let mut i: usize = 0;
        while i < self.bloodstains.len()
            invariant
                i <= self.bloodstains@.len(),
                self.bloodstains == old(self).bloodstains,
                forall|j: int| 0 <= j < i ==> self.bloodstains@[j] != (x, y),
            decreases self.bloodstains@.len() - i,
        {
            if self.bloodstains[i].0 == x && self.bloodstains[i].1 == y {
                assert(self.bloodstains@.contains((x, y)));
                assert(old(self).bloodstains@.to_set().insert((x, y)) =~= old(self).bloodstains@.to_set());
                return;
            }
            i = i + 1;
        }
        self.bloodstains.push((x, y));
        proof {
            assert(self.bloodstains@ =~= old(self).bloodstains@.push((x, y)));
            assert(self.bloodstains@.to_set() =~= old(self).bloodstains@.to_set().insert((x, y))) by {
                assert forall|p| #[trigger] self.bloodstains@.to_set().contains(p) <==> old(self).bloodstains@.to_set().insert((x, y)).contains(p) by {
                    if p == (x, y) {
                        assert(self.bloodstains@[old(self).bloodstains@.len() as int] == p);
                    } else if old(self).bloodstains@.contains(p) {
                        let k = choose|k: int| 0 <= k < old(self).bloodstains@.len() && old(self).bloodstains@[k] == p;
                        assert(self.bloodstains@[k] == p);
                    }
                }
            }
        }
    }
}

/// The exit `e` is the one a step of `(dx, dy)` from `(x, y)` offers: the row-major index of
/// the tile it reaches, marked diagonal exactly when the step moves along both axes.
pub open spec fn offers(e: (usize, bool), m: GameMap, x: int, y: int, dx: int, dy: int) -> bool {
    e.0 == ((y + dy) * m.width + (x + dx)) as usize && e.1 == (dx != 0 && dy != 0)
}

/// `(dx, dy)` is a step to one of the eight neighbouring tiles.
pub open spec fn neighbour_step(dx: int, dy: int) -> bool {
    -1 <= dx <= 1 && -1 <= dy <= 1 && (dx != 0 || dy != 0)
}

/// The `j`-th step from `(x, y)` lands on a tile a path may enter.
pub open spec fn step_open(m: GameMap, x: int, y: int, j: int) -> bool {
    m.spec_exit_valid(x + exit_step(j).0, y + exit_step(j).1)
}

/// The exit `e` is the one the `j`-th step from `(x, y)` offers.
pub open spec fn offers_step(e: (usize, bool), m: GameMap, x: int, y: int, j: int) -> bool {
    offers(e, m, x, y, exit_step(j).0, exit_step(j).1)
}

/// Which of the first `k` steps the `i`-th exit among them comes from.
pub open spec fn exit_source(m: GameMap, x: int, y: int, k: nat, i: int) -> int
    decreases k,
{
    if k == 0 {
        0
    } else if step_open(m, x, y, k - 1) && i == exits_upto(m, x, y, (k - 1) as nat).len() {
        k - 1
    } else {
        exit_source(m, x, y, (k - 1) as nat, i)
    }
}

/// The exits among the first `k` steps are those of the steps that stay on open ground.
proof fn lemma_exits_upto_steps(m: GameMap, x: int, y: int, k: nat)
    requires
        k <= 8,
    ensures
        exits_upto(m, x, y, k).len() <= k,
        forall|i: int| #![trigger exit_source(m, x, y, k, i)] 0 <= i < exits_upto(m, x, y, k).len() ==> {
            &&& 0 <= exit_source(m, x, y, k, i) < k
            &&& step_open(m, x, y, exit_source(m, x, y, k, i))
            &&& offers_step(exits_upto(m, x, y, k)[i], m, x, y, exit_source(m, x, y, k, i))
        },
        forall|j: int| #![trigger step_open(m, x, y, j)] 0 <= j < k && step_open(m, x, y, j) ==>
            exists|i: int| #![trigger exits_upto(m, x, y, k)[i]] 0 <= i < exits_upto(m, x, y, k).len() && offers_step(exits_upto(m, x, y, k)[i], m, x, y, j),
    decreases k,
{
    if k > 0 {
        lemma_exits_upto_steps(m, x, y, (k - 1) as nat);
        let prev = exits_upto(m, x, y, (k - 1) as nat);
        let cur = exits_upto(m, x, y, k);
        let j0 = k - 1;
        assert((j0 >= 4) == (exit_step(j0).0 != 0 && exit_step(j0).1 != 0));
        if step_open(m, x, y, j0) {
            assert(cur.len() == prev.len() + 1);
            assert(forall|i: int| 0 <= i < prev.len() ==> cur[i] == prev[i]);
            assert(offers_step(cur[prev.len() as int], m, x, y, j0));
            assert forall|i: int| #![trigger exit_source(m, x, y, k, i)] 0 <= i < cur.len() implies {
                &&& 0 <= exit_source(m, x, y, k, i) < k
                &&& step_open(m, x, y, exit_source(m, x, y, k, i))
                &&& offers_step(cur[i], m, x, y, exit_source(m, x, y, k, i))
            } by {
                if i < prev.len() {
                    assert(cur[i] == prev[i]);
                    assert(exit_source(m, x, y, k, i) == exit_source(m, x, y, (k - 1) as nat, i));
                }
            }
            assert forall|j: int| #![trigger step_open(m, x, y, j)] 0 <= j < k && step_open(m, x, y, j) implies
                exists|i: int| #![trigger cur[i]] 0 <= i < cur.len() && offers_step(cur[i], m, x, y, j) by {
                if j < j0 {
                    let i = choose|i: int| #![trigger prev[i]] 0 <= i < prev.len() && offers_step(prev[i], m, x, y, j);
                    assert(cur[i] == prev[i]);
                } else {
                    assert(offers_step(cur[prev.len() as int], m, x, y, j));
                }
            }
        } else {
            assert(cur == prev);
            assert forall|i: int| #![trigger exit_source(m, x, y, k, i)] 0 <= i < cur.len() implies {
                &&& 0 <= exit_source(m, x, y, k, i) < k
                &&& step_open(m, x, y, exit_source(m, x, y, k, i))
                &&& offers_step(cur[i], m, x, y, exit_source(m, x, y, k, i))
            } by {
                assert(cur[i] == prev[i]);
                assert(exit_source(m, x, y, k, i) == exit_source(m, x, y, (k - 1) as nat, i));
            }
        }
    }
}

/// The `i`-th exit offered from `(x, y)`.
pub open spec fn exit_at(m: GameMap, x: int, y: int, i: int) -> (usize, bool) {
    exits_upto(m, x, y, 8)[i]
}

/// The exit `e` is offered by a step from `(x, y)` to a neighbouring tile a path may enter.
pub open spec fn leads_to_open_neighbour(e: (usize, bool), m: GameMap, x: int, y: int) -> bool {
    exists|dx: int, dy: int| #![trigger offers(e, m, x, y, dx, dy)]
        neighbour_step(dx, dy) && m.spec_exit_valid(x + dx, y + dy) && offers(e, m, x, y, dx, dy)
}

/// The exits offered from a tile are exactly the open tiles around it: each is the index of
/// a neighbouring tile (one of the eight) that a path may enter, marked diagonal exactly
/// when the step moves along both axes, and every such neighbour is offered.
pub proof fn lemma_exits_are_open_neighbours(m: GameMap, x: int, y: int)
    ensures
        exits_upto(m, x, y, 8).len() <= 8,
        forall|i: int| #![trigger exit_at(m, x, y, i)] 0 <= i < exits_upto(m, x, y, 8).len() ==> leads_to_open_neighbour(exit_at(m, x, y, i), m, x, y),
        forall|dx: int, dy: int| #![trigger neighbour_step(dx, dy)] neighbour_step(dx, dy) && m.spec_exit_valid(x + dx, y + dy) ==>
            exists|i: int| #![trigger exit_at(m, x, y, i)]
                0 <= i < exits_upto(m, x, y, 8).len() && offers(exit_at(m, x, y, i), m, x, y, dx, dy),
{
    lemma_exits_upto_steps(m, x, y, 8);
    assert forall|i: int| #![trigger exit_at(m, x, y, i)] 0 <= i < exits_upto(m, x, y, 8).len() implies
        leads_to_open_neighbour(exit_at(m, x, y, i), m, x, y) by {
        let j = exit_source(m, x, y, 8, i);
        assert(exit_at(m, x, y, i) == exits_upto(m, x, y, 8)[i]);
        lemma_exit_step_is_neighbour(j);
        assert(offers(exit_at(m, x, y, i), m, x, y, exit_step(j).0, exit_step(j).1));
    }
    assert forall|dx: int, dy: int| #![trigger neighbour_step(dx, dy)] neighbour_step(dx, dy) && m.spec_exit_valid(x + dx, y + dy) implies
        exists|i: int| #![trigger exit_at(m, x, y, i)] 0 <= i < exits_upto(m, x, y, 8).len() && offers(exit_at(m, x, y, i), m, x, y, dx, dy) by {
        let j = lemma_neighbour_is_exit_step(dx, dy);
        assert(step_open(m, x, y, j));
        let i = choose|i: int| #![trigger exits_upto(m, x, y, 8)[i]] 0 <= i < exits_upto(m, x, y, 8).len() && offers_step(exits_upto(m, x, y, 8)[i], m, x, y, j);
        assert(exit_at(m, x, y, i) == exits_upto(m, x, y, 8)[i]);
        assert(offers(exit_at(m, x, y, i), m, x, y, dx, dy));
    }
}

/// Each of the eight steps goes to a neighbouring tile.
proof fn lemma_exit_step_is_neighbour(j: int)
    requires
        0 <= j < 8,
    ensures
        neighbour_step(exit_step(j).0, exit_step(j).1),
{
}

/// Each neighbouring tile is reached by one of the eight steps.
proof fn lemma_neighbour_is_exit_step(dx: int, dy: int) -> (j: int)
    requires
        neighbour_step(dx, dy),
    ensures
        0 <= j < 8,
        exit_step(j) == (dx, dy),
{
    if dx == -1 && dy == 0 { 0 }
    else if dx == 1 && dy == 0 { 1 }
    else if dx == 0 && dy == -1 { 2 }
    else if dx == 0 && dy == 1 { 3 }
    else if dx == -1 && dy == -1 { 4 }
    else if dx == 1 && dy == -1 { 5 }
    else if dx == -1 && dy == 1 { 6 }
    else { 7 }
}

/// A row-major index below `w * h` names a tile of a `w` by `h` grid.
pub proof fn lemma_idx_on_map(w: int, h: int, idx: int)
    requires
        0 < w,
        0 < h,
        0 <= idx < w * h,
    ensures
        0 <= idx % w < w,
        0 <= idx / w < h,
        idx == (idx / w) * w + idx % w,
{
    assert(0 <= idx / w < h) by (nonlinear_arith)
        requires 0 < w, 0 < h, 0 <= idx < w * h;
    assert(idx == (idx / w) * w + idx % w) by (nonlinear_arith)
        requires 0 < w;
}

} // verus!
