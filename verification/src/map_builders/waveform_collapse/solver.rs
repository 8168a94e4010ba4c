use vstd::prelude::*;

use crate::map::{GameMap, TileType};
use crate::map_builders::waveform_collapse::common::MapChunk;
use crate::rng::roll_dice;

verus! {

/// The state of one attempt at filling the map with chunks: the chunks to choose from,
/// the choice made so far for each cell of the chunk grid, and the cells still open with
/// their count of chosen neighbours.
pub struct Solver {
    pub constraints: Vec<MapChunk>,
    pub chunk_size: i32,
    pub chunks: Vec<Option<usize>>,
    pub chunks_x: usize,
    pub chunks_y: usize,
    pub remaining: Vec<(usize, i32)>,
    pub possible: bool,
}

/// The indices of the open cells.
pub open spec fn open_cells(r: Seq<(usize, i32)>) -> Seq<usize> {
    r.map_values(|e: (usize, i32)| e.0)
}

/// How many of the four grid neighbours of cell `(x, y)` have a chunk chosen.
pub open spec fn neighbor_count(chunks: Seq<Option<usize>>, nx: int, ny: int, x: int, y: int) -> int {
    (if x > 0 && chunks[y * nx + x - 1] is Some { 1int } else { 0int })
        + (if x < nx - 1 && chunks[y * nx + x + 1] is Some { 1int } else { 0int })
        + (if y > 0 && chunks[(y - 1) * nx + x] is Some { 1int } else { 0int })
        + (if y < ny - 1 && chunks[(y + 1) * nx + x] is Some { 1int } else { 0int })
}

/// The number of the first `k` chunk indices that every list in `options` holds.
pub open spec fn fitting_count(options: Seq<Seq<usize>>, k: nat) -> nat
    decreases k,
{
    if k == 0 {
        0
    } else {
        fitting_count(options, (k - 1) as nat) + if fits_all(options, (k - 1) as usize) { 1nat } else { 0nat }
    }
}

/// Every list in `options` holds `k`.
pub open spec fn fits_all(options: Seq<Seq<usize>>, k: usize) -> bool {
    forall|o: int| 0 <= o < options.len() ==> #[trigger] options[o].contains(k)
}

/// The map shows `pattern` in the square of side `cs` with top-left corner `(left, top)`,
/// row by row, and is as `old` elsewhere.
pub open spec fn shows_pattern(old: GameMap, new: GameMap, pattern: Seq<TileType>, cs: int, left: int, top: int) -> bool {
    forall|a: int, b: int| #![trigger new.tile(a, b)] new.on_map(a, b) ==> new.tile(a, b) ==
        if left <= a < left + cs && top <= b < top + cs { pattern[(b - top) * cs + (a - left)] } else { old.tile(a, b) }
}

/// Draws a pattern of side `cs` with its top-left corner at `(left, top)`.
pub fn draw_pattern(map: &mut GameMap, pattern: &Vec<TileType>, cs: i32, left: i32, top: i32)
    requires
        old(map).wf(),
        1 <= cs,
        pattern@.len() >= cs * cs,
        0 <= left,
        0 <= top,
        left + cs <= old(map).width,
        top + cs <= old(map).height,
    ensures
        final(map).wf(),
        final(map).same_frame(*old(map)),
        shows_pattern(*old(map), *final(map), pattern@, cs as int, left as int, top as int),
{
    let ghost m0 = *map;
    let mut i: usize = 0;
    let mut y = top;
    while y < top + cs
        invariant
            map.wf(),
            map.same_frame(m0),
            1 <= cs,
            pattern@.len() >= cs * cs,
            0 <= left,
            0 <= top,
            left + cs <= map.width,
            top + cs <= map.height,
            top <= y <= top + cs,
            i == (y - top) * cs,
            forall|a: int, b: int| #![trigger map.tile(a, b)] map.on_map(a, b) ==> map.tile(a, b) ==
                if left <= a < left + cs && top <= b < y { pattern@[(b - top) * cs + (a - left)] } else { m0.tile(a, b) },
        decreases top + cs - y,
    {
        let mut x = left;
        while x < left + cs
            invariant
                map.wf(),
                map.same_frame(m0),
                1 <= cs,
                pattern@.len() >= cs * cs,
                0 <= left,
                0 <= top,
                left + cs <= map.width,
                top + cs <= map.height,
                top <= y < top + cs,
                left <= x <= left + cs,
                i == (y - top) * cs + (x - left),
                forall|a: int, b: int| #![trigger map.tile(a, b)] map.on_map(a, b) ==> map.tile(a, b) ==
                    if left <= a < left + cs && (top <= b < y || (b == y && a < x)) { pattern@[(b - top) * cs + (a - left)] } else { m0.tile(a, b) },
            decreases left + cs - x,
        {
            assert(i < cs * cs) by (nonlinear_arith)
                requires i == (y - top) * cs + (x - left), 0 <= y - top < cs, 0 <= x - left < cs;
            assert(cs * cs <= map.width * map.height) by (nonlinear_arith)
                requires 1 <= cs, left + cs <= map.width, top + cs <= map.height, 0 <= left, 0 <= top;
            map.set_tile(x as usize, y as usize, pattern[i]);
            i = i + 1;
            x = x + 1;
        }
        assert((y + 1 - top) * cs == (y - top) * cs + cs) by (nonlinear_arith);
        y = y + 1;
    }
}

/// Copies a list of chunk indices.
fn copy_indices(v: &Vec<usize>) -> (w: Vec<usize>)
    ensures
        w@ == v@,
{
    let mut w: Vec<usize> = Vec::new();
    let mut i: usize = 0;
    while i < v.len()
        invariant
            i <= v@.len(),
            w@ == v@.subrange(0, i as int),
        decreases v@.len() - i,
    {
        w.push(v[i]);
        i = i + 1;
    }
    assert(w@ =~= v@);
    w
}

/// Whether `k` is in the list.
fn has_index(v: &Vec<usize>, k: usize) -> (r: bool)
    ensures
        r == v@.contains(k),
{
    let mut i: usize = 0;
    while i < v.len()
        invariant
            i <= v@.len(),
            forall|j: int| 0 <= j < i ==> v@[j] != k,
        decreases v@.len() - i,
    {
        if v[i] == k {
            assert(v@[i as int] == k);
            return true;
        }
        i = i + 1;
    }
    false
}

impl Solver {
    /// The grid has a cell per chunk position, and fewer cells than `i32::MAX`.
    pub open spec fn grid_wf(&self) -> bool {
        &&& self.chunks@.len() == self.chunks_x * self.chunks_y
        &&& self.chunks_x * self.chunks_y < i32::MAX
    }

    /// The chunk grid and the open cells agree: the grid has a cell per chunk position,
    /// every open cell is on it and unchosen, no cell is open twice, every chosen chunk
    /// exists, every pattern is whole, and, while a solution is still possible, every
    /// unchosen cell is open.
    pub open spec fn wf(&self) -> bool {
        &&& 1 <= self.chunk_size
        &&& self.grid_wf()
        &&& self.remaining@.len() <= self.chunks@.len()
        &&& self.constraints@.len() < i32::MAX
        &&& forall|k: int| 0 <= k < self.constraints@.len() ==> (#[trigger] self.constraints@[k]).pattern@.len() == self.chunk_size * self.chunk_size
        &&& forall|k: int, d: int, j: int| 0 <= k < self.constraints@.len() && 0 <= d < 4 && 0 <= j < self.constraints@[k].compatible_with@[d]@.len()
            ==> #[trigger] self.constraints@[k].compatible_with@[d]@[j] < self.constraints@.len()
        &&& forall|i: int| 0 <= i < self.remaining@.len() ==> {
            &&& (#[trigger] self.remaining@[i]).0 < self.chunks@.len()
            &&& self.chunks@[self.remaining@[i].0 as int] is None
        }
        &&& open_cells(self.remaining@).no_duplicates()
        &&& forall|c: int| 0 <= c < self.chunks@.len() ==> (#[trigger] self.chunks@[c] matches Some(k) ==> k < self.constraints@.len())
        &&& self.possible ==> forall|c: int| 0 <= c < self.chunks@.len() && (#[trigger] self.chunks@[c]) is None ==> open_cells(self.remaining@).contains(c as usize)
    }

    /// A solver for a map `map`: its grid of whole chunks, all unchosen and open.
    pub fn new(constraints: Vec<MapChunk>, chunk_size: i32, map: &GameMap) -> (s: Solver)
        requires
            map.wf(),
            map.width * map.height < i32::MAX,
            constraints@.len() < i32::MAX,
            1 <= chunk_size,
            forall|k: int| 0 <= k < constraints@.len() ==> (#[trigger] constraints@[k]).pattern@.len() == chunk_size * chunk_size,
            forall|k: int, d: int, j: int| 0 <= k < constraints@.len() && 0 <= d < 4 && 0 <= j < constraints@[k].compatible_with@[d]@.len()
                ==> #[trigger] constraints@[k].compatible_with@[d]@[j] < constraints@.len(),
        ensures
            s.wf(),
            s.possible,
            s.constraints == constraints,
            s.chunk_size == chunk_size,
            s.chunks_x == map.width / chunk_size,
            s.chunks_y == map.height / chunk_size,
            forall|c: int| 0 <= c < s.chunks@.len() ==> (#[trigger] s.chunks@[c]) is None,
            open_cells(s.remaining@) == Seq::new(s.chunks@.len(), |i: int| i as usize),
    {
        let chunks_x = (map.width / chunk_size) as usize;
        let chunks_y = (map.height / chunk_size) as usize;
        assert(chunks_x * chunks_y <= map.width * map.height) by (nonlinear_arith)
            requires chunks_x <= map.width, chunks_y <= map.height, 0 <= chunks_x, 0 <= chunks_y;
        let total = chunks_x * chunks_y;
        let mut remaining: Vec<(usize, i32)> = Vec::new();
        let mut chunks: Vec<Option<usize>> = Vec::new();
        let mut i: usize = 0;
        while i < total
            invariant
                i <= total,
                remaining@.len() == i,
                chunks@.len() == i,
                forall|j: int| 0 <= j < i ==> (#[trigger] remaining@[j]) == (j as usize, 0i32),
                forall|j: int| 0 <= j < i ==> (#[trigger] chunks@[j]) is None,
            decreases total - i,
        {
            remaining.push((i, 0));
            chunks.push(None);
            i = i + 1;
        }
        let s = Solver { constraints, chunk_size, chunks, chunks_x, chunks_y, remaining, possible: true };
        proof {
            assert(open_cells(s.remaining@) =~= Seq::new(s.chunks@.len(), |i: int| i as usize));
            assert forall|c: int| 0 <= c < s.chunks@.len() && (#[trigger] s.chunks@[c]) is None implies open_cells(s.remaining@).contains(c as usize) by {
                assert(open_cells(s.remaining@)[c] == c as usize);
            }
        }
        s
    }

    /// The index of grid cell `(x, y)`.
    pub fn chunk_idx(&self, x: usize, y: usize) -> (idx: usize)
        requires
            self.grid_wf(),
            x < self.chunks_x,
            y < self.chunks_y,
        ensures
            idx == y * self.chunks_x + x,
            idx < self.chunks@.len(),
    {
        assert(y * self.chunks_x + x < self.chunks_x * self.chunks_y) by (nonlinear_arith)
            requires x < self.chunks_x, y < self.chunks_y;
        (y * self.chunks_x) + x
    }

    /// How many of the four grid neighbours of cell `(chunk_x, chunk_y)` have a chunk.
    pub fn count_neighbors(&self, chunk_x: usize, chunk_y: usize) -> (n: i32)
        requires
            self.grid_wf(),
            chunk_x < self.chunks_x,
            chunk_y < self.chunks_y,
        ensures
            n == neighbor_count(self.chunks@, self.chunks_x as int, self.chunks_y as int, chunk_x as int, chunk_y as int),
            0 <= n <= 4,
    {
        let mut neighbors: i32 = 0;
        if chunk_x > 0 {
            let left_idx = self.chunk_idx(chunk_x - 1, chunk_y);
            if self.chunks[left_idx].is_some() {
                neighbors = neighbors + 1;
            }
        }
        if chunk_x < self.chunks_x - 1 {
            let right_idx = self.chunk_idx(chunk_x + 1, chunk_y);
            if self.chunks[right_idx].is_some() {
                neighbors = neighbors + 1;
            }
        }
        if chunk_y > 0 {
            let up_idx = self.chunk_idx(chunk_x, chunk_y - 1);
            if self.chunks[up_idx].is_some() {
                neighbors = neighbors + 1;
            }
        }
        if chunk_y < self.chunks_y - 1 {
            let down_idx = self.chunk_idx(chunk_x, chunk_y + 1);
            if self.chunks[down_idx].is_some() {
                neighbors = neighbors + 1;
            }
        }
        proof {
            assert((chunk_y - 1) * self.chunks_x == chunk_y * self.chunks_x - self.chunks_x) by (nonlinear_arith);
            assert((chunk_y + 1) * self.chunks_x == chunk_y * self.chunks_x + self.chunks_x) by (nonlinear_arith);
        }
        neighbors
    }
}

/// The lists of chunks that may sit in cell `(x, y)` according to each neighbour with a
/// chunk chosen: left, right, up, down, in that order.
pub open spec fn neighbor_options(chunks: Seq<Option<usize>>, cons: Seq<MapChunk>, nx: int, ny: int, x: int, y: int) -> Seq<Seq<usize>> {
    let l = if x > 0 && chunks[y * nx + x - 1] is Some {
        seq![cons[chunks[y * nx + x - 1]->0 as int].compatible_with@[3]@]
    } else {
        Seq::empty()
    };
    let r = if x < nx - 1 && chunks[y * nx + x + 1] is Some {
        seq![cons[chunks[y * nx + x + 1]->0 as int].compatible_with@[2]@]
    } else {
        Seq::empty()
    };
    let u = if y > 0 && chunks[(y - 1) * nx + x] is Some {
        seq![cons[chunks[(y - 1) * nx + x]->0 as int].compatible_with@[1]@]
    } else {
        Seq::empty()
    };
    let d = if y < ny - 1 && chunks[(y + 1) * nx + x] is Some {
        seq![cons[chunks[(y + 1) * nx + x]->0 as int].compatible_with@[0]@]
    } else {
        Seq::empty()
    };
    l + r + u + d
}

/// The cells in the list ordered by neighbour count, most first.
pub open spec fn sorted_by_count(r: Seq<(usize, i32)>) -> bool {
    forall|a: int, b: int| 0 <= a <= b < r.len() ==> (#[trigger] r[a]).1 >= (#[trigger] r[b]).1
}

/// `e` put into `s` after every cell whose count is at least its own (found from the end),
/// as an insertion sort that keeps equal counts in order does.
pub open spec fn insert_by_count(s: Seq<(usize, i32)>, e: (usize, i32)) -> Seq<(usize, i32)>
    decreases s.len(),
{
    if s.len() == 0 || s.last().1 >= e.1 {
        s.push(e)
    } else {
        insert_by_count(s.drop_last(), e).push(s.last())
    }
}

/// The cells sorted by count, most first, cells with equal counts in the order they came.
pub open spec fn stable_by_count(s: Seq<(usize, i32)>) -> Seq<(usize, i32)>
    decreases s.len(),
{
    if s.len() == 0 {
        s
    } else {
        insert_by_count(stable_by_count(s.drop_last()), s.last())
    }
}

/// In cells sorted by count, inserting before the first cell with a smaller count is what
/// `insert_by_count` does.
proof fn lemma_insert_by_count(s: Seq<(usize, i32)>, p: int, e: (usize, i32))
    requires
        sorted_by_count(s),
        0 <= p <= s.len(),
        forall|j: int| 0 <= j < p ==> (#[trigger] s[j]).1 >= e.1,
        p < s.len() ==> s[p].1 < e.1,
    ensures
        s.insert(p, e) == insert_by_count(s, e),
    decreases s.len(),
{
    if s.len() == 0 {
        assert(s.insert(p, e) =~= s.push(e));
    } else if s.last().1 >= e.1 {
        if p < s.len() {
            assert(s[p].1 >= s[s.len() - 1].1);
        }
        assert(s.insert(p, e) =~= s.push(e));
    } else {
        if p == s.len() {
            assert(s[s.len() - 1].1 >= e.1);
        }
        let t = s.drop_last();
        assert(sorted_by_count(t)) by {
            assert forall|a: int, b: int| 0 <= a <= b < t.len() implies (#[trigger] t[a]).1 >= (#[trigger] t[b]).1 by {
                assert(t[a] == s[a] && t[b] == s[b]);
            }
        }
        assert forall|j: int| 0 <= j < p implies (#[trigger] t[j]).1 >= e.1 by {
            assert(t[j] == s[j]);
        }
        if p < t.len() {
            assert(t[p] == s[p]);
        }
        lemma_insert_by_count(t, p, e);
        assert(s.insert(p, e) =~= t.insert(p, e).push(s.last()));
    }
}

/// How far sorting `v` has come once its first `i` cells are in `r`: `r` holds them,
/// ordered by count, and the open cells stay apart.
#[verifier::opaque]
spec fn sort_progress(v: Seq<(usize, i32)>, r: Seq<(usize, i32)>, i: int) -> bool {
    &&& 0 <= i <= v.len()
    &&& r.len() == i
    &&& sorted_by_count(r)
    &&& forall|k: int| 0 <= k < r.len() ==> v.subrange(0, i).contains(#[trigger] r[k])
    &&& forall|k: int| 0 <= k < i ==> r.contains(#[trigger] v[k])
    &&& open_cells(v).no_duplicates() ==> open_cells(r).no_duplicates()
    &&& open_cells(v).no_duplicates() ==> forall|k: int, q: int| 0 <= k < r.len() && i <= q < v.len() ==> (#[trigger] r[k]).0 != (#[trigger] v[q]).0
}

/// Inserting the next cell before the first with a smaller count keeps the sorting on
/// course.
#[verifier::spinoff_prover]
#[verifier::rlimit(40)]
proof fn lemma_sort_step(v: Seq<(usize, i32)>, before: Seq<(usize, i32)>, i: int, p: int)
    requires
        sort_progress(v, before, i),
        i < v.len(),
        0 <= p <= before.len(),
        forall|k: int| 0 <= k < p ==> (#[trigger] before[k]).1 >= v[i].1,
        p < before.len() ==> before[p].1 < v[i].1,
    ensures
        sort_progress(v, before.insert(p, v[i]), i + 1),
{
    reveal(sort_progress);
    let e = v[i];
    let r = before.insert(p, e);
    assert forall|a: int, b: int| 0 <= a <= b < r.len() implies (#[trigger] r[a]).1 >= (#[trigger] r[b]).1 by {
        if p < before.len() {
            assert(before[p].1 < e.1);
        }
        if a < p && b > p {
            assert(r[a] == before[a]);
            assert(r[b] == before[b - 1]);
        } else if a < p && b == p {
            assert(r[a] == before[a]);
        } else if a == p && b > p {
            assert(r[b] == before[b - 1]);
            assert(before[p].1 >= before[b - 1].1);
        } else if a > p {
            assert(r[a] == before[a - 1]);
            assert(r[b] == before[b - 1]);
        } else if b < p {
            assert(r[a] == before[a]);
            assert(r[b] == before[b]);
        }
    }
    assert forall|k: int| 0 <= k < r.len() implies v.subrange(0, i + 1).contains(#[trigger] r[k]) by {
        if k == p {
            assert(v.subrange(0, i + 1)[i] == e);
        } else {
            let k2 = if k < p { k } else { k - 1 };
            assert(r[k] == before[k2]);
            assert(v.subrange(0, i).contains(before[k2]));
            let j = choose|j: int| 0 <= j < i && v.subrange(0, i)[j] == before[k2];
            assert(v.subrange(0, i + 1)[j] == before[k2]);
        }
    }
    assert forall|k: int| 0 <= k < i + 1 implies r.contains(#[trigger] v[k]) by {
        if k == i {
            assert(r[p] == e);
        } else {
            assert(before.contains(v[k]));
            let j = choose|j: int| 0 <= j < before.len() && before[j] == v[k];
            let j2 = if j < p { j } else { j + 1 };
            assert(r[j2] == before[j]);
        }
    }
    if open_cells(v).no_duplicates() {
        assert forall|a: int, b: int| 0 <= a < r.len() && 0 <= b < r.len() && a != b implies open_cells(r)[a] != open_cells(r)[b] by {
            if a == p {
                let b2 = if b < p { b } else { b - 1 };
                assert(r[b] == before[b2]);
                assert(before[b2].0 != v[i].0);
            } else if b == p {
                let a2 = if a < p { a } else { a - 1 };
                assert(r[a] == before[a2]);
                assert(before[a2].0 != v[i].0);
            } else {
                let a2 = if a < p { a } else { a - 1 };
                let b2 = if b < p { b } else { b - 1 };
                assert(r[a] == before[a2]);
                assert(r[b] == before[b2]);
                assert(open_cells(before)[a2] != open_cells(before)[b2]);
            }
        }
        assert forall|k: int, q: int| 0 <= k < r.len() && i + 1 <= q < v.len() implies (#[trigger] r[k]).0 != (#[trigger] v[q]).0 by {
            if k == p {
                assert(open_cells(v)[i] != open_cells(v)[q]);
            } else {
                let k2 = if k < p { k } else { k - 1 };
                assert(r[k] == before[k2]);
            }
        }
    }
}

/// The list sorted by neighbour count, most first, keeping the order of equal counts.
#[verifier::spinoff_prover]
fn sort_by_count(v: &Vec<(usize, i32)>) -> (r: Vec<(usize, i32)>)
    ensures
        r@.len() == v@.len(),
        sorted_by_count(r@),
        r@ == stable_by_count(v@),
        forall|i: int| 0 <= i < r@.len() ==> v@.contains(#[trigger] r@[i]),
        forall|i: int| 0 <= i < v@.len() ==> r@.contains(#[trigger] v@[i]),
        open_cells(v@).no_duplicates() ==> open_cells(r@).no_duplicates(),
{
    let mut r: Vec<(usize, i32)> = Vec::new();
    let mut i: usize = 0;
    proof {
        reveal(sort_progress);
    }
    while i < v.len()
        invariant
            sort_progress(v@, r@, i as int),
            r@ == stable_by_count(v@.subrange(0, i as int)),
        decreases v@.len() - i,
    {
        proof {
            reveal(sort_progress);
        }
        let e = v[i];
        let mut p: usize = 0;
        while p < r.len() && r[p].1 >= e.1
            invariant
                p <= r@.len(),
                forall|k: int| 0 <= k < p ==> (#[trigger] r@[k]).1 >= e.1,
            decreases r@.len() - p,
        {
            p = p + 1;
        }
        let ghost before = r@;
        proof {
            if p < before.len() {
                assert(before[p as int].1 < e.1);
            }
            lemma_insert_by_count(before, p as int, e);
            assert(v@.subrange(0, i + 1).drop_last() =~= v@.subrange(0, i as int));
            assert(v@.subrange(0, i + 1).last() == e);
            lemma_sort_step(v@, before, i as int, p as int);
        }
        r.insert(p, e);
        i = i + 1;
    }
    proof {
        reveal(sort_progress);
        assert(v@.subrange(0, v@.len() as int) =~= v@);
    }
    r
}

/// The chunks among the first `n` that every list in `options` holds, in increasing order.
fn fitting_chunks(options: &Vec<Vec<usize>>, n: usize) -> (c: Vec<usize>)
    ensures
        c@.len() == fitting_count(options@.map_values(|o: Vec<usize>| o@), n as nat),
        c@.len() <= n,
        forall|j: int| 0 <= j < c@.len() ==> #[trigger] c@[j] < n && fits_all(options@.map_values(|o: Vec<usize>| o@), c@[j]),
{
    let ghost os = options@.map_values(|o: Vec<usize>| o@);
    let mut c: Vec<usize> = Vec::new();
    let mut k: usize = 0;
    while k < n
        invariant
            os == options@.map_values(|o: Vec<usize>| o@),
            k <= n,
            c@.len() == fitting_count(os, k as nat),
            c@.len() <= k,
            forall|j: int| 0 <= j < c@.len() ==> #[trigger] c@[j] < k && fits_all(os, c@[j]),
        decreases n - k,
    {
        let mut all = true;
        let mut o: usize = 0;
        while o < options.len()
            invariant
                os == options@.map_values(|o: Vec<usize>| o@),
                o <= options@.len(),
                all <==> forall|q: int| 0 <= q < o ==> #[trigger] os[q].contains(k),
            decreases options@.len() - o,
        {
            if !has_index(&options[o], k) {
                all = false;
            }
            assert(os[o as int] == options@[o as int]@);
            o = o + 1;
        }
        assert(all == fits_all(os, k));
        assert(fitting_count(os, (k + 1) as nat) == fitting_count(os, k as nat) + if all { 1nat } else { 0nat });
        if all {
            let ghost before = c@;
            c.push(k);
            assert(forall|j: int| 0 <= j < before.len() ==> c@[j] == before[j]);
        }
        k = k + 1;
    }
    c
}

/// What one step does to the open cells: with none left it reports being done; otherwise
/// it closes exactly one.
pub open spec fn step_closes_one(old: Solver, new: Solver, done: bool) -> bool {
    &&& old.remaining@.len() == 0 ==> done
    &&& old.remaining@.len() > 0 ==> new.remaining@.len() == old.remaining@.len() - 1
}

/// The solver finishes: along a run of steps `ss[0]`, `ss[1]`, ... none of which reports
/// being done, each step closes one open cell, so there are at most as many steps as open
/// cells at the start. Of the first `n + 1` steps from a solver with `n` open cells, one
/// reports being done.
pub proof fn lemma_solver_finishes(ss: Seq<Solver>, dones: Seq<bool>)
    requires
        ss.len() == dones.len() + 1,
        forall|i: int| 0 <= i < dones.len() ==> #[trigger] step_closes_one(ss[i], ss[i + 1], dones[i]),
        forall|i: int| 0 <= i < dones.len() ==> !#[trigger] dones[i],
    ensures
        dones.len() <= ss[0].remaining@.len(),
        ss.last().remaining@.len() == ss[0].remaining@.len() - dones.len(),
    decreases dones.len(),
{
    if dones.len() > 0 {
        let k = (dones.len() - 1) as int;
        lemma_solver_finishes(ss.take(k + 1), dones.take(k));
        assert(ss.take(k + 1).last() == ss[k]);
        assert(step_closes_one(ss[k], ss[k + 1], dones[k]));
        assert(!dones[k]);
    }
}

impl Solver {
    /// The open cells, each with its current count of chosen neighbours.
    pub open spec fn counted_cells(&self) -> Seq<(usize, i32)> {
        self.remaining@.map_values(|e: (usize, i32)| (e.0, self.cell_count(e.0 as int) as i32))
    }

    /// The number of chosen neighbours of the cell with index `i`.
    pub open spec fn cell_count(&self, i: int) -> int {
        neighbor_count(self.chunks@, self.chunks_x as int, self.chunks_y as int, i % (self.chunks_x as int), i / (self.chunks_x as int))
    }

    /// One step: with no open cell left, reports being done. Otherwise re-counts the chosen
    /// neighbours of the open cells and orders them most first; takes the first if any has
    /// a chosen neighbour, else a random one; and closes it. With no chosen neighbour the
    /// cell gets a random chunk; with some, the chunks every neighbour allows (facing this
    /// cell) are listed, and if there are none the map is found impossible and the step
    /// reports being done; else the cell gets one of them at random. The chunk's
    /// pattern is drawn into the cell's square on the map.
    #[verifier::spinoff_prover]
    #[verifier::rlimit(40)]
    pub fn iteration(&mut self, map: &mut GameMap, rng: &mut bracket_lib::random::RandomNumberGenerator) -> (done: bool)
        requires
            old(self).wf(),
            old(self).possible,
            old(map).wf(),
            old(self).chunks_x * old(self).chunk_size <= old(map).width,
            old(self).chunks_y * old(self).chunk_size <= old(map).height,
            old(self).remaining@.len() > 0 ==> old(self).constraints@.len() > 0,
        ensures
            final(self).wf(),
            final(self).constraints == old(self).constraints,
            final(self).chunk_size == old(self).chunk_size,
            final(self).chunks_x == old(self).chunks_x,
            final(self).chunks_y == old(self).chunks_y,
            final(map).wf(),
            final(map).same_frame(*old(map)),
            step_closes_one(*old(self), *final(self), done),
            old(self).remaining@.len() == 0 ==> done && final(self).chunks == old(self).chunks
                && final(self).remaining == old(self).remaining && final(self).possible && *final(map) == *old(map),
            old(self).remaining@.len() > 0 ==> exists|idx: int| #![trigger stable_by_count(old(self).counted_cells()).remove(idx)]
                0 <= idx < old(self).remaining@.len()
                && final(self).remaining@ == stable_by_count(old(self).counted_cells()).remove(idx)
                && ((exists|i: int| 0 <= i < old(self).remaining@.len() && old(self).cell_count(#[trigger] old(self).remaining@[i].0 as int) > 0)
                    ==> idx == 0),
            old(self).remaining@.len() > 0 ==> {
                &&& final(self).remaining@.len() == old(self).remaining@.len() - 1
                &&& exists|c: usize| #![trigger open_cells(old(self).remaining@).contains(c)] {
                    let nx = old(self).chunks_x as int;
                    let cx = c as int % nx;
                    let cy = c as int / nx;
                    let opts = neighbor_options(old(self).chunks@, old(self).constraints@, nx, old(self).chunks_y as int, cx, cy);
                    &&& open_cells(old(self).remaining@).contains(c)
                    &&& open_cells(final(self).remaining@).to_set() == open_cells(old(self).remaining@).to_set().remove(c)
                    &&& (exists|i: int| 0 <= i < old(self).remaining@.len() && old(self).cell_count(#[trigger] old(self).remaining@[i].0 as int) > 0)
                        ==> forall|i: int| 0 <= i < old(self).remaining@.len() ==> old(self).cell_count(#[trigger] old(self).remaining@[i].0 as int) <= old(self).cell_count(c as int)
                    &&& done == (opts.len() > 0 && fitting_count(opts, old(self).constraints@.len()) == 0)
                    &&& done ==> !final(self).possible && final(self).chunks == old(self).chunks && *final(map) == *old(map)
                    &&& !done ==> final(self).possible && exists|k: usize| #![trigger old(self).constraints@[k as int]] {
                        &&& final(self).chunks@ == old(self).chunks@.update(c as int, Some(k))
                        &&& k < old(self).constraints@.len()
                        &&& opts.len() > 0 ==> fits_all(opts, k)
                        &&& shows_pattern(*old(map), *final(map), old(self).constraints@[k as int].pattern@, old(self).chunk_size as int,
                            cx * old(self).chunk_size, cy * old(self).chunk_size)
                    }
                }
            },
    {
        if self.remaining.len() == 0 {
            return true;
        }
        let ghost s0 = *self;
        let nx = self.chunks_x;
        let ny = self.chunks_y;
        proof {
            assert(nx > 0) by {
                if nx == 0 {
                    assert(s0.chunks@.len() == 0) by (nonlinear_arith) requires s0.chunks@.len() == nx * ny, nx == 0;
                    assert(s0.remaining@[0].0 < s0.chunks@.len());
                }
            }
        }
        let (counted, neighbors_exist) = self.recount();
        proof {
            assert(open_cells(counted@) =~= open_cells(s0.remaining@));
        }
        let mut sorted = sort_by_count(&counted);
        proof {
            lemma_same_open_cells(counted@, sorted@);
        }
        let remaining_index: usize = if !neighbors_exist {
            (roll_dice(rng, 1, sorted.len() as i32) - 1) as usize
        } else {
            0
        };
        let ghost sorted_s = sorted@;
        let chunk_index = sorted[remaining_index].0;
        let ghost c = chunk_index;
        proof {
            assert(counted@.contains(sorted_s[remaining_index as int]));
            let j = choose|j: int| 0 <= j < counted@.len() && counted@[j] == sorted_s[remaining_index as int];
            assert(open_cells(s0.remaining@)[j] == chunk_index);
            assert(s0.chunks@[c as int] is None) by {
                assert(s0.remaining@[j].0 == c);
            }
            if neighbors_exist {
                assert forall|i: int| 0 <= i < s0.remaining@.len() implies s0.cell_count(#[trigger] s0.remaining@[i].0 as int) <= s0.cell_count(c as int) by {
                    assert(sorted@.contains(counted@[i]));
                    let q = choose|q: int| 0 <= q < sorted@.len() && sorted@[q] == counted@[i];
                    assert(sorted_s[0].1 >= sorted_s[q].1);
                }
            }
            lemma_remove_open(sorted_s, remaining_index as int);
        }
        sorted.remove(remaining_index);
        let chunk_x = chunk_index % nx;
        let chunk_y = chunk_index / nx;
        proof {
            assert(chunk_y < ny) by (nonlinear_arith) requires chunk_index < nx * ny, chunk_y == chunk_index / nx, nx > 0;
        }
        let options = self.collect_options(chunk_x, chunk_y);
        let ghost opts = neighbor_options(s0.chunks@, s0.constraints@, nx as int, ny as int, chunk_x as int, chunk_y as int);
        let n = self.constraints.len();
        let cs = self.chunk_size;
        proof {
            assert(chunk_x * cs + cs <= nx * cs && chunk_y * cs + cs <= ny * cs) by (nonlinear_arith)
                requires chunk_x < nx, chunk_y < ny, 0 < cs;
            assert(nx * cs <= map.width && ny * cs <= map.height);
            assert(chunk_x <= chunk_x * cs && chunk_y <= chunk_y * cs) by (nonlinear_arith) requires 1 <= cs;
            assert(chunk_x * cs + cs <= map.width && chunk_y * cs + cs <= map.height);
        }
        let left_x = chunk_x as i32 * cs;
        let top_y = chunk_y as i32 * cs;
        let new_chunk_idx: usize;
        if options.len() == 0 {
            new_chunk_idx = (roll_dice(rng, 1, n as i32) - 1) as usize;
        } else {
            let fitting_list = fitting_chunks(&options, n);
            let fitting = fitting_list.len();
            if fitting == 0 {
                self.possible = false;
                self.remaining = sorted;
                proof {
                    lemma_open_still_unchosen(s0, sorted_s, remaining_index as int, self.remaining@);
                    assert(self.remaining@ == stable_by_count(s0.counted_cells()).remove(remaining_index as int));
                }
                return true;
            }
            let pick: usize = if fitting == 1 { 0 } else { (roll_dice(rng, 1, fitting as i32) - 1) as usize };
            new_chunk_idx = fitting_list[pick];
        }
        self.chunks.set(chunk_index, Some(new_chunk_idx));
        self.remaining = sorted;
        draw_pattern(map, &self.constraints[new_chunk_idx].pattern, cs, left_x, top_y);
        proof {
            assert(self.remaining@ == stable_by_count(s0.counted_cells()).remove(remaining_index as int));
            lemma_open_still_unchosen(s0, sorted_s, remaining_index as int, self.remaining@);
            assert forall|k: int| 0 <= k < self.remaining@.len() implies {
                &&& (#[trigger] self.remaining@[k]).0 < self.chunks@.len()
                &&& self.chunks@[self.remaining@[k].0 as int] is None
            } by {
                assert(open_cells(self.remaining@)[k] == self.remaining@[k].0);
                assert(open_cells(self.remaining@).to_set().contains(self.remaining@[k].0));
                assert(self.remaining@[k].0 != c);
                assert(s0.chunks@[self.remaining@[k].0 as int] is None);
            }
            assert forall|q: int| 0 <= q < self.chunks@.len() && (#[trigger] self.chunks@[q]) is None implies open_cells(self.remaining@).contains(q as usize) by {
                assert(q != c);
                assert(s0.chunks@[q] is None);
                assert(open_cells(s0.remaining@).contains(q as usize));
                assert(open_cells(s0.remaining@).to_set().contains(q as usize));
                assert(open_cells(self.remaining@).to_set().contains(q as usize));
            }
            assert(self.chunks@[c as int] == Some(new_chunk_idx));
        }
        false
    }

    /// Each open cell with its current count of chosen neighbours, and whether any count
    /// is positive.
    fn recount(&self) -> (r: (Vec<(usize, i32)>, bool))
        requires
            self.wf(),
            self.chunks_x > 0,
        ensures
            r.0@.len() == self.remaining@.len(),
            forall|k: int| 0 <= k < r.0@.len() ==> (#[trigger] r.0@[k]).0 == self.remaining@[k].0 && r.0@[k].1 == self.cell_count(r.0@[k].0 as int),
            r.1 <==> exists|k: int| 0 <= k < self.remaining@.len() && self.cell_count(#[trigger] self.remaining@[k].0 as int) > 0,
            r.0@ == self.counted_cells(),
    {
        let nx = self.chunks_x;
        let ny = self.chunks_y;
        let mut counted: Vec<(usize, i32)> = Vec::new();
        let mut neighbors_exist = false;
        let mut i: usize = 0;
        while i < self.remaining.len()
            invariant
                self.wf(),
                nx == self.chunks_x,
                ny == self.chunks_y,
                nx > 0,
                i <= self.remaining@.len(),
                counted@.len() == i,
                forall|k: int| 0 <= k < i ==> (#[trigger] counted@[k]).0 == self.remaining@[k].0 && counted@[k].1 == self.cell_count(counted@[k].0 as int),
                neighbors_exist <==> exists|k: int| 0 <= k < i && self.cell_count(#[trigger] self.remaining@[k].0 as int) > 0,
            decreases self.remaining@.len() - i,
        {
            let idx = self.remaining[i].0;
            assert(self.remaining@[i as int].0 < self.chunks@.len());
            let cx = idx % nx;
            let cy = idx / nx;
            proof {
                assert(cy < ny) by (nonlinear_arith) requires idx < nx * ny, cy == idx / nx, nx > 0;
            }
            let cnt = self.count_neighbors(cx, cy);
            if cnt > 0 {
                neighbors_exist = true;
            }
            counted.push((idx, cnt));
            i = i + 1;
        }
        assert(counted@ =~= self.counted_cells());
        (counted, neighbors_exist)
    }

    /// The lists of chunks allowed in cell `(chunk_x, chunk_y)` by each neighbour with a
    /// chunk chosen: left, right, up, down.
    #[verifier::spinoff_prover]
    #[verifier::rlimit(40)]
    fn collect_options(&self, chunk_x: usize, chunk_y: usize) -> (options: Vec<Vec<usize>>)
        requires
            self.wf(),
            chunk_x < self.chunks_x,
            chunk_y < self.chunks_y,
        ensures
            options@.map_values(|o: Vec<usize>| o@) == neighbor_options(self.chunks@, self.constraints@,
                self.chunks_x as int, self.chunks_y as int, chunk_x as int, chunk_y as int),
            forall|o: int, j: int| 0 <= o < options@.len() && 0 <= j < options@[o]@.len() ==> #[trigger] options@[o]@[j] < self.constraints@.len(),
    {
        let nx = self.chunks_x;
        let ny = self.chunks_y;
        let mut options: Vec<Vec<usize>> = Vec::new();
        if chunk_x > 0 {
            let left_idx = self.chunk_idx(chunk_x - 1, chunk_y);
            match self.chunks[left_idx] {
                None => {},
                Some(nt) => {
                    options.push(copy_indices(&self.constraints[nt].compatible_with[3]));
                },
            }
        }
        let ghost o1 = options@;
        if chunk_x < nx - 1 {
            let right_idx = self.chunk_idx(chunk_x + 1, chunk_y);
            match self.chunks[right_idx] {
                None => {},
                Some(nt) => {
                    options.push(copy_indices(&self.constraints[nt].compatible_with[2]));
                },
            }
        }
        let ghost o2 = options@;
        if chunk_y > 0 {
            let up_idx = self.chunk_idx(chunk_x, chunk_y - 1);
            match self.chunks[up_idx] {
                None => {},
                Some(nt) => {
                    options.push(copy_indices(&self.constraints[nt].compatible_with[1]));
                },
            }
        }
        let ghost o3 = options@;
        if chunk_y < ny - 1 {
            let down_idx = self.chunk_idx(chunk_x, chunk_y + 1);
            match self.chunks[down_idx] {
                None => {},
                Some(nt) => {
                    options.push(copy_indices(&self.constraints[nt].compatible_with[0]));
                },
            }
        }
        proof {
            assert((chunk_y - 1) * nx == chunk_y * nx - nx) by (nonlinear_arith);
            assert((chunk_y + 1) * nx == chunk_y * nx + nx) by (nonlinear_arith);
            assert(options@.map_values(|o: Vec<usize>| o@) =~= neighbor_options(self.chunks@, self.constraints@,
                nx as int, ny as int, chunk_x as int, chunk_y as int));
            assert forall|o: int, j: int| 0 <= o < options@.len() && 0 <= j < options@[o]@.len() implies #[trigger] options@[o]@[j] < self.constraints@.len() by {
                assert(options@.map_values(|o: Vec<usize>| o@)[o] == options@[o]@);
            }
        }
        options
    }
}

/// The open cells left after one is taken were open before, and so unchosen.
proof fn lemma_open_still_unchosen(s0: Solver, sorted: Seq<(usize, i32)>, ri: int, rest: Seq<(usize, i32)>)
    requires
        s0.wf(),
        0 <= ri < sorted.len(),
        rest == sorted.remove(ri),
        open_cells(sorted).to_set() == open_cells(s0.remaining@).to_set(),
    ensures
        forall|k: int| 0 <= k < rest.len() ==> {
            &&& (#[trigger] rest[k]).0 < s0.chunks@.len()
            &&& s0.chunks@[rest[k].0 as int] is None
        },
{
    assert forall|k: int| 0 <= k < rest.len() implies {
        &&& (#[trigger] rest[k]).0 < s0.chunks@.len()
        &&& s0.chunks@[rest[k].0 as int] is None
    } by {
        let k2 = if k < ri { k } else { k + 1 };
        assert(rest[k] == sorted[k2]);
        assert(open_cells(sorted)[k2] == rest[k].0);
        assert(open_cells(sorted).to_set().contains(rest[k].0));
        assert(open_cells(s0.remaining@).to_set().contains(rest[k].0));
        let j = choose|j: int| 0 <= j < open_cells(s0.remaining@).len() && open_cells(s0.remaining@)[j] == rest[k].0;
        assert(s0.remaining@[j].0 == rest[k].0);
    }
}

/// Two lists holding each other's entries have the same open cells.
proof fn lemma_same_open_cells(a: Seq<(usize, i32)>, b: Seq<(usize, i32)>)
    requires
        forall|i: int| 0 <= i < a.len() ==> b.contains(#[trigger] a[i]),
        forall|i: int| 0 <= i < b.len() ==> a.contains(#[trigger] b[i]),
    ensures
        open_cells(a).to_set() =~= open_cells(b).to_set(),
{
    assert forall|x: usize| open_cells(a).to_set().contains(x) implies open_cells(b).to_set().contains(x) by {
        let i = choose|i: int| 0 <= i < open_cells(a).len() && open_cells(a)[i] == x;
        assert(b.contains(a[i]));
        let j = choose|j: int| 0 <= j < b.len() && b[j] == a[i];
        assert(open_cells(b)[j] == x);
    }
    assert forall|x: usize| open_cells(b).to_set().contains(x) implies open_cells(a).to_set().contains(x) by {
        let i = choose|i: int| 0 <= i < open_cells(b).len() && open_cells(b)[i] == x;
        assert(a.contains(b[i]));
        let j = choose|j: int| 0 <= j < a.len() && a[j] == b[i];
        assert(open_cells(a)[j] == x);
    }
}

/// Removing an entry from a list whose open cells are distinct removes its cell from the
/// set of open cells and keeps the rest distinct.
proof fn lemma_remove_open(s: Seq<(usize, i32)>, i: int)
    requires
        0 <= i < s.len(),
        open_cells(s).no_duplicates(),
    ensures
        open_cells(s.remove(i)).to_set() =~= open_cells(s).to_set().remove(s[i].0),
        open_cells(s.remove(i)).no_duplicates(),
{
    let r = s.remove(i);
    assert forall|x: usize| open_cells(r).to_set().contains(x) implies open_cells(s).to_set().remove(s[i].0).contains(x) by {
        let k = choose|k: int| 0 <= k < open_cells(r).len() && open_cells(r)[k] == x;
        let k2 = if k < i { k } else { k + 1 };
        assert(r[k] == s[k2]);
        assert(open_cells(s)[k2] == x);
        assert(open_cells(s)[k2] != open_cells(s)[i]);
    }
    assert forall|x: usize| open_cells(s).to_set().remove(s[i].0).contains(x) implies open_cells(r).to_set().contains(x) by {
        let k = choose|k: int| 0 <= k < open_cells(s).len() && open_cells(s)[k] == x;
        assert(k != i);
        let k2 = if k < i { k } else { k - 1 };
        assert(r[k2] == s[k]);
        assert(open_cells(r)[k2] == x);
    }
    assert forall|a: int, b: int| 0 <= a < open_cells(r).len() && 0 <= b < open_cells(r).len() && a != b implies open_cells(r)[a] != open_cells(r)[b] by {
        let a2 = if a < i { a } else { a + 1 };
        let b2 = if b < i { b } else { b + 1 };
        assert(r[a] == s[a2]);
        assert(r[b] == s[b2]);
        assert(open_cells(s)[a2] != open_cells(s)[b2]);
    }
}

} // verus!
