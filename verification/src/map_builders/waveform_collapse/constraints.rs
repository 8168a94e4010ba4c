use vstd::prelude::*;

use crate::map::{GameMap, TileType};
use crate::map_builders::waveform_collapse::common::{spec_tile_idx, tile_idx_in_chunk, MapChunk};

verus! {

/// The tiles of chunk `(cx, cy)` of side `cs`, row by row, mirrored left to right when
/// `flip_x` and top to bottom when `flip_y`.
pub open spec fn chunk_pattern(m: GameMap, cs: int, cx: int, cy: int, flip_x: bool, flip_y: bool) -> Seq<TileType> {
    Seq::new((cs * cs) as nat, |i: int| {
        let x = i % cs;
        let y = i / cs;
        let tx = if flip_x { cs - 1 - x } else { x };
        let ty = if flip_y { cs - 1 - y } else { y };
        m.tile(cx * cs + tx, cy * cs + ty)
    })
}

/// `p` is one of the patterns taken from chunk `(cx, cy)`: as it is, or, with flipping,
/// mirrored left to right, top to bottom, or both ways.
pub open spec fn chunk_variant(m: GameMap, cs: int, cx: int, cy: int, flipping: bool, p: Seq<TileType>) -> bool {
    ||| p == chunk_pattern(m, cs, cx, cy, false, false)
    ||| flipping && p == chunk_pattern(m, cs, cx, cy, true, false)
    ||| flipping && p == chunk_pattern(m, cs, cx, cy, false, true)
    ||| flipping && p == chunk_pattern(m, cs, cx, cy, true, true)
}

/// How many patterns each chunk gives: four with flipping, else one.
pub open spec fn variants(flipping: bool) -> int {
    if flipping { 4 } else { 1 }
}

/// Variant `k` of a chunk is mirrored left to right (the second and the fourth).
pub open spec fn variant_flip_x(k: int) -> bool {
    k == 1 || k == 3
}

/// Variant `k` of a chunk is mirrored top to bottom (the third and the fourth).
pub open spec fn variant_flip_y(k: int) -> bool {
    k >= 2
}

/// Pattern `q` of the list built without deduping from a map `nx` chunks wide: variant
/// `q % v` of chunk `q / v`, the chunks counted row by row (`v` patterns per chunk).
pub open spec fn listed_pattern(m: GameMap, cs: int, nx: int, flipping: bool, q: int) -> Seq<TileType> {
    let v = variants(flipping);
    let c = q / v;
    chunk_pattern(m, cs, c % nx, c / nx, variant_flip_x(q % v), variant_flip_y(q % v))
}

/// `p` is taken from one of the whole chunks of side `cs` of the map.
pub open spec fn is_map_pattern(m: GameMap, cs: int, flipping: bool, p: Seq<TileType>) -> bool {
    exists|cx: int, cy: int| #![trigger chunk_pattern(m, cs, cx, cy, false, false)]
        0 <= cx < (m.width as int) / cs && 0 <= cy < (m.height as int) / cs && chunk_variant(m, cs, cx, cy, flipping, p)
}

/// The patterns in a list of tile lists.
pub open spec fn pattern_seqs(ps: Seq<Vec<TileType>>) -> Seq<Seq<TileType>> {
    ps.map_values(|p: Vec<TileType>| p@)
}

/// Whether two tile lists are equal.
fn same_pattern(a: &Vec<TileType>, b: &Vec<TileType>) -> (r: bool)
    ensures
        r == (a@ == b@),
{
    if a.len() != b.len() {
        return false;
    }
    let mut i: usize = 0;
    while i < a.len()
        invariant
            a@.len() == b@.len(),
            i <= a@.len(),
            forall|k: int| 0 <= k < i ==> a@[k] == b@[k],
        decreases a@.len() - i,
    {
        if a[i] != b[i] {
            return false;
        }
        i = i + 1;
    }
    assert(a@ =~= b@);
    true
}

/// Reads the tiles of chunk `(cx, cy)`, possibly mirrored.
fn read_chunk(map: &GameMap, cs: i32, cx: i32, cy: i32, flip_x: bool, flip_y: bool) -> (p: Vec<TileType>)
    requires
        map.wf(),
        1 <= cs,
        0 <= cx < map.width / cs,
        0 <= cy < map.height / cs,
    ensures
        p@ == chunk_pattern(*map, cs as int, cx as int, cy as int, flip_x, flip_y),
{
    let mut p: Vec<TileType> = Vec::new();
    proof {
        assert((cx + 1) * cs <= map.width && (cy + 1) * cs <= map.height) by (nonlinear_arith)
            requires 0 <= cx < map.width / cs, 0 <= cy < map.height / cs, 1 <= cs, map.width > 0, map.height > 0;
    }
    let mut y: i32 = 0;
    while y < cs
        invariant
            map.wf(),
            1 <= cs,
            0 <= cx,
            0 <= cy,
            (cx + 1) * cs <= map.width,
            (cy + 1) * cs <= map.height,
            0 <= y <= cs,
            p@.len() == y * cs,
            forall|i: int| 0 <= i < p@.len() ==> #[trigger] p@[i] == chunk_pattern(*map, cs as int, cx as int, cy as int, flip_x, flip_y)[i],
        decreases cs - y,
    {
        let mut x: i32 = 0;
        while x < cs
            invariant
                map.wf(),
                1 <= cs,
                0 <= cx,
                0 <= cy,
                (cx + 1) * cs <= map.width,
                (cy + 1) * cs <= map.height,
                0 <= y < cs,
                0 <= x <= cs,
                p@.len() == y * cs + x,
                forall|i: int| 0 <= i < p@.len() ==> #[trigger] p@[i] == chunk_pattern(*map, cs as int, cx as int, cy as int, flip_x, flip_y)[i],
            decreases cs - x,
        {
            let tx = if flip_x { cs - 1 - x } else { x };
            let ty = if flip_y { cs - 1 - y } else { y };
            proof {
                assert(0 <= cx * cs + tx < map.width && 0 <= cy * cs + ty < map.height) by (nonlinear_arith)
                    requires 0 <= tx < cs, 0 <= ty < cs, 0 <= cx, 0 <= cy, (cx + 1) * cs <= map.width, (cy + 1) * cs <= map.height;
                let i = y * cs + x;
                assert(i % (cs as int) == x && i / (cs as int) == y) by (nonlinear_arith)
                    requires i == y * cs + x, 0 <= x < cs, 0 <= y;
                assert(0 <= i < cs * cs) by (nonlinear_arith)
                    requires i == y * cs + x, 0 <= x < cs, 0 <= y < cs;
            }
            p.push(map.tiles[(cx * cs + tx) as usize][(cy * cs + ty) as usize]);
            x = x + 1;
        }
        assert((y + 1) * cs == y * cs + cs) by (nonlinear_arith);
        y = y + 1;
    }
    proof {
        assert(p@.len() == cs * cs);
        assert(p@ =~= chunk_pattern(*map, cs as int, cx as int, cy as int, flip_x, flip_y));
    }
    p
}

/// Cuts the map into whole chunks of side `chunk_size`, row by row, and takes each as a
/// pattern, followed, when flipping, by its mirror images left to right, top to bottom and
/// both ways. Without `dedupe` that is the list; with it each pattern is kept once, at its
/// first place. Every pattern comes from a chunk, and every chunk gives its patterns.
pub fn build_patterns(map: &GameMap, chunk_size: i32, include_flipping: bool, dedupe: bool) -> (patterns: Vec<Vec<TileType>>)
    requires
        map.wf(),
        1 <= chunk_size,
    ensures
        forall|i: int| 0 <= i < patterns@.len() ==> is_map_pattern(*map, chunk_size as int, include_flipping, (#[trigger] patterns@[i])@),
        forall|i: int| 0 <= i < patterns@.len() ==> (#[trigger] patterns@[i])@.len() == chunk_size * chunk_size,
        forall|cx: int, cy: int, p: Seq<TileType>| 0 <= cx < map.width / chunk_size && 0 <= cy < map.height / chunk_size
            && #[trigger] chunk_variant(*map, chunk_size as int, cx, cy, include_flipping, p) ==> pattern_seqs(patterns@).contains(p),
        dedupe ==> pattern_seqs(patterns@).no_duplicates(),
        patterns@.len() <= 4 * ((map.width / chunk_size) * (map.height / chunk_size)),
        !dedupe ==> patterns@.len() == variants(include_flipping) * ((map.width / chunk_size) * (map.height / chunk_size)),
        !dedupe ==> forall|q: int| 0 <= q < patterns@.len() ==> (#[trigger] patterns@[q])@
            == listed_pattern(*map, chunk_size as int, map.width / chunk_size, include_flipping, q),
{
    let chunks_x = map.width / chunk_size;
    let chunks_y = map.height / chunk_size;
    let ghost cs = chunk_size as int;
    let mut patterns: Vec<Vec<TileType>> = Vec::new();
    let mut cy: i32 = 0;
    while cy < chunks_y
        invariant
            map.wf(),
            1 <= chunk_size,
            cs == chunk_size,
            chunks_x == map.width / chunk_size,
            chunks_y == map.height / chunk_size,
            0 <= cy <= chunks_y,
            patterns@.len() <= 4 * (cy * chunks_x),
            !dedupe ==> patterns@.len() == (cy * chunks_x) * variants(include_flipping),
            !dedupe ==> forall|q: int| 0 <= q < patterns@.len() ==> (#[trigger] patterns@[q])@
                == listed_pattern(*map, cs, chunks_x as int, include_flipping, q),
            forall|i: int| 0 <= i < patterns@.len() ==> is_map_pattern(*map, cs, include_flipping, (#[trigger] patterns@[i])@),
            forall|i: int| 0 <= i < patterns@.len() ==> (#[trigger] patterns@[i])@.len() == cs * cs,
            forall|a: int, b: int, p: Seq<TileType>| 0 <= a < chunks_x && 0 <= b < cy
                && #[trigger] chunk_variant(*map, cs, a, b, include_flipping, p) ==> pattern_seqs(patterns@).contains(p),
            dedupe ==> pattern_seqs(patterns@).no_duplicates(),
        decreases chunks_y - cy,
    {
        let mut cx: i32 = 0;
        while cx < chunks_x
            invariant
                map.wf(),
                1 <= chunk_size,
                cs == chunk_size,
                chunks_x == map.width / chunk_size,
                chunks_y == map.height / chunk_size,
                0 <= cy < chunks_y,
                0 <= cx <= chunks_x,
                patterns@.len() <= 4 * (cy * chunks_x) + 4 * cx,
                !dedupe ==> patterns@.len() == (cy * chunks_x + cx) * variants(include_flipping),
                !dedupe ==> forall|q: int| 0 <= q < patterns@.len() ==> (#[trigger] patterns@[q])@
                    == listed_pattern(*map, cs, chunks_x as int, include_flipping, q),
                forall|i: int| 0 <= i < patterns@.len() ==> is_map_pattern(*map, cs, include_flipping, (#[trigger] patterns@[i])@),
                forall|i: int| 0 <= i < patterns@.len() ==> (#[trigger] patterns@[i])@.len() == cs * cs,
                forall|a: int, b: int, p: Seq<TileType>| 0 <= a < chunks_x && 0 <= b < cy
                    && #[trigger] chunk_variant(*map, cs, a, b, include_flipping, p) ==> pattern_seqs(patterns@).contains(p),
                forall|a: int, p: Seq<TileType>| 0 <= a < cx
                    && #[trigger] chunk_variant(*map, cs, a, cy as int, include_flipping, p) ==> pattern_seqs(patterns@).contains(p),
                dedupe ==> pattern_seqs(patterns@).no_duplicates(),
            decreases chunks_x - cx,
        {
            let mut k: usize = 0;
            let n_variants: usize = if include_flipping { 4 } else { 1 };
            while k < n_variants
                invariant
                    map.wf(),
                    1 <= chunk_size,
                    cs == chunk_size,
                    chunks_x == map.width / chunk_size,
                    chunks_y == map.height / chunk_size,
                    0 <= cy < chunks_y,
                    0 <= cx < chunks_x,
                    n_variants == variants(include_flipping),
                    k <= n_variants,
                    patterns@.len() <= 4 * (cy * chunks_x) + 4 * cx + k,
                    !dedupe ==> patterns@.len() == (cy * chunks_x + cx) * variants(include_flipping) + k,
                    !dedupe ==> forall|q: int| 0 <= q < patterns@.len() ==> (#[trigger] patterns@[q])@
                        == listed_pattern(*map, cs, chunks_x as int, include_flipping, q),
                    forall|i: int| 0 <= i < patterns@.len() ==> is_map_pattern(*map, cs, include_flipping, (#[trigger] patterns@[i])@),
                    forall|i: int| 0 <= i < patterns@.len() ==> (#[trigger] patterns@[i])@.len() == cs * cs,
                    forall|a: int, b: int, p: Seq<TileType>| 0 <= a < chunks_x && 0 <= b < cy
                        && #[trigger] chunk_variant(*map, cs, a, b, include_flipping, p) ==> pattern_seqs(patterns@).contains(p),
                    forall|a: int, p: Seq<TileType>| 0 <= a < cx
                        && #[trigger] chunk_variant(*map, cs, a, cy as int, include_flipping, p) ==> pattern_seqs(patterns@).contains(p),
                    k >= 1 ==> pattern_seqs(patterns@).contains(chunk_pattern(*map, cs, cx as int, cy as int, false, false)),
                    k >= 2 ==> pattern_seqs(patterns@).contains(chunk_pattern(*map, cs, cx as int, cy as int, true, false)),
                    k >= 3 ==> pattern_seqs(patterns@).contains(chunk_pattern(*map, cs, cx as int, cy as int, false, true)),
                    k >= 4 ==> pattern_seqs(patterns@).contains(chunk_pattern(*map, cs, cx as int, cy as int, true, true)),
                    dedupe ==> pattern_seqs(patterns@).no_duplicates(),
                decreases n_variants - k,
            {
                let pattern = read_chunk(map, chunk_size, cx, cy, k == 1 || k == 3, k >= 2);
                let ghost pv = pattern@;
                let ghost before = patterns@;
                proof {
                    assert(chunk_variant(*map, cs, cx as int, cy as int, include_flipping, pv));
                    assert(is_map_pattern(*map, cs, include_flipping, pv));
                }
                let mut seen = false;
                if dedupe {
                    let mut q: usize = 0;
                    while q < patterns.len()
                        invariant
                            q <= patterns@.len(),
                            pattern@ == pv,
                            seen ==> pattern_seqs(patterns@).contains(pv),
                            !seen ==> forall|j: int| 0 <= j < q ==> (#[trigger] patterns@[j])@ != pv,
                        decreases patterns@.len() - q,
                    {
                        if same_pattern(&patterns[q], &pattern) {
                            seen = true;
                            assert(pattern_seqs(patterns@)[q as int] == pv);
                        }
                        q = q + 1;
                    }
                    proof {
                        if !seen {
                            assert(!pattern_seqs(patterns@).contains(pv)) by {
                                if pattern_seqs(patterns@).contains(pv) {
                                    let j = choose|j: int| 0 <= j < pattern_seqs(patterns@).len() && pattern_seqs(patterns@)[j] == pv;
                                    assert(patterns@[j]@ == pv);
                                }
                            }
                        }
                    }
                }
                if !seen {
                    patterns.push(pattern);
                    proof {
                        assert(pattern_seqs(patterns@) =~= pattern_seqs(before).push(pv));
                        assert(pattern_seqs(patterns@)[before.len() as int] == pv);
                        if !dedupe {
                            let c = cy * chunks_x + cx;
                            let v = variants(include_flipping);
                            let q = before.len() as int;
                            vstd::arithmetic::div_mod::lemma_fundamental_div_mod_converse(q, v, c as int, k as int);
                            vstd::arithmetic::div_mod::lemma_fundamental_div_mod_converse(c as int, chunks_x as int, cy as int, cx as int);
                            assert(patterns@[q]@ == listed_pattern(*map, cs, chunks_x as int, include_flipping, q));
                            assert forall|r: int| 0 <= r < patterns@.len() implies (#[trigger] patterns@[r])@
                                == listed_pattern(*map, cs, chunks_x as int, include_flipping, r) by {
                                if r < q {
                                    assert(patterns@[r] == before[r]);
                                }
                            }
                        }
                    }
                }
                proof {
                    assert(pattern_seqs(patterns@).contains(pv));
                    assert forall|i: int| 0 <= i < patterns@.len() implies is_map_pattern(*map, cs, include_flipping, (#[trigger] patterns@[i])@) by {
                        if i < before.len() {
                            assert(patterns@[i] == before[i]);
                        }
                    }
                    assert forall|s: Seq<TileType>| pattern_seqs(before).contains(s) implies pattern_seqs(patterns@).contains(s) by {
                        let j = choose|j: int| 0 <= j < pattern_seqs(before).len() && pattern_seqs(before)[j] == s;
                        assert(pattern_seqs(patterns@)[j] == s);
                    }
                }
                k = k + 1;
            }
            proof {
                assert forall|a: int, p: Seq<TileType>| 0 <= a < cx + 1
                    && #[trigger] chunk_variant(*map, cs, a, cy as int, include_flipping, p) implies pattern_seqs(patterns@).contains(p) by {
                }
                let v = variants(include_flipping);
                assert((cy * chunks_x + cx) * v + v == (cy * chunks_x + cx + 1) * v) by (nonlinear_arith);
            }
            cx = cx + 1;
        }
        assert(4 * (cy * chunks_x) + 4 * chunks_x == 4 * ((cy + 1) * chunks_x)) by (nonlinear_arith);
        assert(cy * chunks_x + chunks_x == (cy + 1) * chunks_x) by (nonlinear_arith);
        cy = cy + 1;
    }
    assert(chunks_y * chunks_x == chunks_x * chunks_y) by (nonlinear_arith);
    assert((chunks_y * chunks_x) * variants(include_flipping) == variants(include_flipping) * (chunks_x * chunks_y)) by (nonlinear_arith);
    patterns
}

/// The index in a pattern of side `cs` of slot `slot` of its north, south, west or east
/// edge (`dir` 0 to 3).
pub open spec fn edge_index(cs: int, dir: int, slot: int) -> int {
    if dir == 0 {
        spec_tile_idx(cs, slot, 0)
    } else if dir == 1 {
        spec_tile_idx(cs, slot, cs - 1)
    } else if dir == 2 {
        spec_tile_idx(cs, 0, slot)
    } else {
        spec_tile_idx(cs, cs - 1, slot)
    }
}

/// Slot `slot` of edge `dir` of the pattern is floor.
pub open spec fn edge_open(p: Seq<TileType>, cs: int, dir: int, slot: int) -> bool {
    p[edge_index(cs, dir, slot)] == TileType::Floor
}

/// The edge facing edge `dir` of a neighbour: north faces south, west faces east.
pub open spec fn opposite_side(dir: int) -> int {
    if dir == 0 { 1 } else if dir == 1 { 0 } else if dir == 2 { 3 } else { 2 }
}

/// Some edge slot of the pattern is floor.
pub open spec fn pattern_has_exits(p: Seq<TileType>, cs: int) -> bool {
    exists|dir: int, slot: int| 0 <= dir < 4 && 0 <= slot < cs && #[trigger] edge_open(p, cs, dir, slot)
}

/// Pattern `q` may sit on side `dir` of pattern `p`: one of them has no open edge at all;
/// or some slot is open on both facing edges; or both facing edges are closed throughout.
pub open spec fn patterns_compatible(p: Seq<TileType>, q: Seq<TileType>, cs: int, dir: int) -> bool {
    ||| !pattern_has_exits(p, cs)
    ||| !pattern_has_exits(q, cs)
    ||| exists|slot: int| 0 <= slot < cs && #[trigger] edge_open(p, cs, dir, slot) && edge_open(q, cs, opposite_side(dir), slot)
    ||| (forall|slot: int| 0 <= slot < cs ==> !#[trigger] edge_open(p, cs, dir, slot))
        && (forall|slot: int| 0 <= slot < cs ==> !#[trigger] edge_open(q, cs, opposite_side(dir), slot))
}

/// The indices below `k` of the patterns that may sit on side `dir` of pattern `i`, in
/// order.
pub open spec fn compatible_upto(ps: Seq<Seq<TileType>>, i: int, cs: int, dir: int, k: nat) -> Seq<usize>
    decreases k,
{
    if k == 0 {
        Seq::empty()
    } else {
        let prev = compatible_upto(ps, i, cs, dir, (k - 1) as nat);
        if patterns_compatible(ps[i], ps[k - 1], cs, dir) { prev.push((k - 1) as usize) } else { prev }
    }
}

/// Pattern `j` is listed for side `dir` of pattern `i`, among the first `k`, exactly when
/// `j` is below `k` and may sit there; every listed index is below `k`.
pub proof fn lemma_compatible_upto_contains(ps: Seq<Seq<TileType>>, i: int, cs: int, dir: int, k: nat, j: usize)
    requires
        k <= usize::MAX,
    ensures
        compatible_upto(ps, i, cs, dir, k).contains(j) <==> (j < k && patterns_compatible(ps[i], ps[j as int], cs, dir)),
        forall|t: int| 0 <= t < compatible_upto(ps, i, cs, dir, k).len() ==> #[trigger] compatible_upto(ps, i, cs, dir, k)[t] < k,
    decreases k,
{
    if k > 0 {
        let prev = compatible_upto(ps, i, cs, dir, (k - 1) as nat);
        lemma_compatible_upto_contains(ps, i, cs, dir, (k - 1) as nat, j);
        if patterns_compatible(ps[i], ps[k - 1], cs, dir) {
            let cur = prev.push((k - 1) as usize);
            assert(cur[prev.len() as int] == (k - 1) as usize);
            if cur.contains(j) && j != k - 1 {
                let t = choose|t: int| 0 <= t < cur.len() && cur[t] == j;
                assert(t < prev.len());
                assert(prev[t] == j);
            }
            if prev.contains(j) {
                let t = choose|t: int| 0 <= t < prev.len() && prev[t] == j;
                assert(cur[t] == j);
            }
            assert forall|t: int| 0 <= t < cur.len() implies #[trigger] cur[t] < k by {
                if t < prev.len() {
                    assert(cur[t] == prev[t]);
                }
            }
        }
    }
}

/// Compatibility goes both ways: pattern `q` may sit on side `dir` of pattern `p` exactly
/// when `p` may sit on the opposite side of `q`.
pub proof fn lemma_compatibility_symmetric(p: Seq<TileType>, q: Seq<TileType>, cs: int, dir: int)
    requires
        0 <= dir < 4,
    ensures
        patterns_compatible(p, q, cs, dir) == patterns_compatible(q, p, cs, opposite_side(dir)),
{
    assert(opposite_side(opposite_side(dir)) == dir);
    if exists|slot: int| 0 <= slot < cs && #[trigger] edge_open(p, cs, dir, slot) && edge_open(q, cs, opposite_side(dir), slot) {
        let slot = choose|slot: int| 0 <= slot < cs && #[trigger] edge_open(p, cs, dir, slot) && edge_open(q, cs, opposite_side(dir), slot);
        assert(edge_open(q, cs, opposite_side(dir), slot) && edge_open(p, cs, opposite_side(opposite_side(dir)), slot));
    }
    if exists|slot: int| 0 <= slot < cs && #[trigger] edge_open(q, cs, opposite_side(dir), slot) && edge_open(p, cs, opposite_side(opposite_side(dir)), slot) {
        let slot = choose|slot: int| 0 <= slot < cs && #[trigger] edge_open(q, cs, opposite_side(dir), slot) && edge_open(p, cs, opposite_side(opposite_side(dir)), slot);
        assert(edge_open(p, cs, dir, slot));
    }
}

/// The chunk lists of the patterns agree both ways: pattern `j` is listed for side `dir`
/// of pattern `i` exactly when `i` is listed for the opposite side of `j`; and a pattern
/// with no open edge is listed on all four sides of every pattern, and every pattern on
/// all four of its own.
pub proof fn lemma_constraints_symmetric(ps: Seq<Seq<TileType>>, cs: int, i: usize, j: usize, dir: int)
    requires
        ps.len() <= usize::MAX,
        i < ps.len(),
        j < ps.len(),
        0 <= dir < 4,
    ensures
        compatible_upto(ps, i as int, cs, dir, ps.len()).contains(j)
            == compatible_upto(ps, j as int, cs, opposite_side(dir), ps.len()).contains(i),
        !pattern_has_exits(ps[i as int], cs) || !pattern_has_exits(ps[j as int], cs) ==> compatible_upto(ps, i as int, cs, dir, ps.len()).contains(j),
{
    lemma_compatible_upto_contains(ps, i as int, cs, dir, ps.len(), j);
    lemma_compatible_upto_contains(ps, j as int, cs, opposite_side(dir), ps.len(), i);
    lemma_compatibility_symmetric(ps[i as int], ps[j as int], cs, dir);
}

/// The chunk made of pattern `i` of `ps`: the pattern, its open edge slots, whether it has
/// any, and the patterns that may sit on each side.
pub open spec fn chunk_of(c: MapChunk, ps: Seq<Seq<TileType>>, i: int, cs: int) -> bool {
    &&& c.pattern@ == ps[i]
    &&& forall|dir: int| 0 <= dir < 4 ==> (#[trigger] c.exits@[dir])@.len() == cs
    &&& forall|dir: int, slot: int| 0 <= dir < 4 && 0 <= slot < cs ==> (#[trigger] c.exits@[dir]@[slot]) == edge_open(ps[i], cs, dir, slot)
    &&& c.has_exits == pattern_has_exits(ps[i], cs)
    &&& forall|dir: int| 0 <= dir < 4 ==> (#[trigger] c.compatible_with@[dir])@ == compatible_upto(ps, i, cs, dir, ps.len())
}

fn copy_pattern(p: &Vec<TileType>) -> (q: Vec<TileType>)
    ensures
        q@ == p@,
{
    let mut q: Vec<TileType> = Vec::new();
    let mut i: usize = 0;
    while i < p.len()
        invariant
            i <= p@.len(),
            q@ == p@.subrange(0, i as int),
        decreases p@.len() - i,
    {
        q.push(p[i]);
        i = i + 1;
    }
    assert(q@ =~= p@);
    q
}

/// The open slots of edge `dir` of a pattern.
fn edge_exits(p: &Vec<TileType>, cs: i32, dir: usize) -> (e: Vec<bool>)
    requires
        1 <= cs && cs * cs <= i32::MAX + 1,
        p@.len() == cs * cs,
        dir < 4,
    ensures
        e@.len() == cs,
        forall|slot: int| 0 <= slot < cs ==> #[trigger] e@[slot] == edge_open(p@, cs as int, dir as int, slot),
{
    let mut e: Vec<bool> = Vec::new();
    let mut x: i32 = 0;
    while x < cs
        invariant
            1 <= cs && cs * cs <= i32::MAX + 1,
            p@.len() == cs * cs,
            dir < 4,
            0 <= x <= cs,
            e@.len() == x,
            forall|slot: int| 0 <= slot < x ==> #[trigger] e@[slot] == edge_open(p@, cs as int, dir as int, slot),
        decreases cs - x,
    {
        proof {
            assert((cs - 1) * cs + x <= cs * cs - 1 && x * cs <= (cs - 1) * cs && x * cs + (cs - 1) <= cs * cs - 1) by (nonlinear_arith)
                requires 0 <= x < cs;
        }
        let idx = if dir == 0 {
            tile_idx_in_chunk(cs, x, 0)
        } else if dir == 1 {
            tile_idx_in_chunk(cs, x, cs - 1)
        } else if dir == 2 {
            tile_idx_in_chunk(cs, 0, x)
        } else {
            tile_idx_in_chunk(cs, cs - 1, x)
        };
        e.push(p[idx] == TileType::Floor);
        x = x + 1;
    }
    e
}

/// Whether pattern `q` may sit on side `dir` of pattern `p`, from their open edge slots.
fn sides_compatible(p_exits: &[Vec<bool>; 4], p_has: bool, q_exits: &[Vec<bool>; 4], q_has: bool, dir: usize,
    Ghost(p): Ghost<Seq<TileType>>, Ghost(q): Ghost<Seq<TileType>>, cs: i32) -> (r: bool)
    requires
        1 <= cs,
        dir < 4,
        forall|d: int| 0 <= d < 4 ==> (#[trigger] p_exits@[d])@.len() == cs && q_exits@[d]@.len() == cs,
        forall|d: int, slot: int| 0 <= d < 4 && 0 <= slot < cs ==> (#[trigger] p_exits@[d]@[slot]) == edge_open(p, cs as int, d, slot),
        forall|d: int, slot: int| 0 <= d < 4 && 0 <= slot < cs ==> (#[trigger] q_exits@[d]@[slot]) == edge_open(q, cs as int, d, slot),
        p_has == pattern_has_exits(p, cs as int),
        q_has == pattern_has_exits(q, cs as int),
    ensures
        r == patterns_compatible(p, q, cs as int, dir as int),
{
    if !p_has || !q_has {
        return true;
    }
    let opposite: usize = if dir == 0 { 1 } else if dir == 1 { 0 } else if dir == 2 { 3 } else { 2 };
    let exit_list = &p_exits[dir];
    let other = &q_exits[opposite];
    assert(exit_list@ == p_exits@[dir as int]@);
    assert(other@ == q_exits@[opposite as int]@);
    assert(p_exits@[opposite as int]@.len() == cs);
    assert forall|s: int| 0 <= s < cs implies (#[trigger] exit_list@[s]) == edge_open(p, cs as int, dir as int, s) by {
        assert(p_exits@[dir as int]@[s] == edge_open(p, cs as int, dir as int, s));
    }
    assert forall|s: int| 0 <= s < cs implies (#[trigger] other@[s]) == edge_open(q, cs as int, opposite as int, s) by {
        assert(q_exits@[opposite as int]@[s] == edge_open(q, cs as int, opposite as int, s));
    }
    let mut it_fits = false;
    let mut has_any = false;
    let mut all_closed = true;
    let mut slot: usize = 0;
    while slot < exit_list.len()
        invariant
            1 <= cs,
            exit_list@.len() == cs,
            other@.len() == cs,
            opposite == opposite_side(dir as int),
            forall|s: int| 0 <= s < cs ==> (#[trigger] exit_list@[s]) == edge_open(p, cs as int, dir as int, s),
            forall|s: int| 0 <= s < cs ==> (#[trigger] other@[s]) == edge_open(q, cs as int, opposite as int, s),
            slot <= cs,
            it_fits <==> exists|s: int| 0 <= s < slot && #[trigger] edge_open(p, cs as int, dir as int, s) && edge_open(q, cs as int, opposite as int, s),
            has_any <==> exists|s: int| 0 <= s < slot && #[trigger] edge_open(p, cs as int, dir as int, s),
            all_closed <==> forall|s: int| 0 <= s < slot ==> !#[trigger] edge_open(q, cs as int, opposite as int, s),
        decreases cs - slot,
    {
        assert(exit_list@[slot as int] == edge_open(p, cs as int, dir as int, slot as int));
        assert(other@[slot as int] == edge_open(q, cs as int, opposite as int, slot as int));
        if exit_list[slot] {
            has_any = true;
            if other[slot] {
                it_fits = true;
            }
        }
        if other[slot] {
            all_closed = false;
        }
        slot = slot + 1;
    }
    it_fits || (!has_any && all_closed)
}

/// Turns each pattern into a chunk: its open edge slots, whether it has any, and for each
/// side the patterns, in order, that may sit there.
pub fn patterns_to_constraints(patterns: Vec<Vec<TileType>>, chunk_size: i32) -> (constraints: Vec<MapChunk>)
    requires
        1 <= chunk_size,
        patterns@.len() > 0 ==> chunk_size * chunk_size <= i32::MAX + 1,
        forall|i: int| 0 <= i < patterns@.len() ==> (#[trigger] patterns@[i])@.len() == chunk_size * chunk_size,
    ensures
        constraints@.len() == patterns@.len(),
        forall|i: int| 0 <= i < constraints@.len() ==> chunk_of(#[trigger] constraints@[i], pattern_seqs(patterns@), i, chunk_size as int),
{
    let ghost ps = pattern_seqs(patterns@);
    let ghost cs = chunk_size as int;
    let n = patterns.len();
    let mut first: Vec<([Vec<bool>; 4], bool)> = Vec::new();
    let mut i: usize = 0;
    while i < n
        invariant
            1 <= chunk_size,
            n > 0 ==> chunk_size * chunk_size <= i32::MAX + 1,
            cs == chunk_size,
            n == patterns@.len(),
            ps == pattern_seqs(patterns@),
            forall|k: int| 0 <= k < patterns@.len() ==> (#[trigger] patterns@[k])@.len() == cs * cs,
            i <= n,
            first@.len() == i,
            forall|k: int, d: int| 0 <= k < i && 0 <= d < 4 ==> (#[trigger] first@[k].0@[d])@.len() == cs,
            forall|k: int, d: int, slot: int| 0 <= k < i && 0 <= d < 4 && 0 <= slot < cs ==> (#[trigger] first@[k].0@[d]@[slot]) == edge_open(ps[k], cs, d, slot),
            forall|k: int| 0 <= k < i ==> (#[trigger] first@[k]).1 == pattern_has_exits(ps[k], cs),
        decreases n - i,
    {
        let p = &patterns[i];
        assert(p@ == ps[i as int]);
        let north = edge_exits(p, chunk_size, 0);
        let south = edge_exits(p, chunk_size, 1);
        let west = edge_exits(p, chunk_size, 2);
        let east = edge_exits(p, chunk_size, 3);
        let mut n_exits: usize = 0;
        let mut x: usize = 0;
        assert(chunk_size <= 46341) by (nonlinear_arith) requires 1 <= chunk_size, chunk_size * chunk_size <= i32::MAX + 1;
        while x < chunk_size as usize
            invariant
                chunk_size <= 46341,
                1 <= chunk_size && chunk_size * chunk_size <= i32::MAX + 1,
                cs == chunk_size,
                north@.len() == cs && south@.len() == cs && west@.len() == cs && east@.len() == cs,
                forall|slot: int| 0 <= slot < cs ==> #[trigger] north@[slot] == edge_open(p@, cs, 0, slot),
                forall|slot: int| 0 <= slot < cs ==> #[trigger] south@[slot] == edge_open(p@, cs, 1, slot),
                forall|slot: int| 0 <= slot < cs ==> #[trigger] west@[slot] == edge_open(p@, cs, 2, slot),
                forall|slot: int| 0 <= slot < cs ==> #[trigger] east@[slot] == edge_open(p@, cs, 3, slot),
                x <= cs,
                n_exits <= 4 * x,
                (n_exits > 0) <==> exists|d: int, slot: int| 0 <= d < 4 && 0 <= slot < x && #[trigger] edge_open(p@, cs, d, slot),
            decreases cs - x,
        {
            if north[x] { n_exits = n_exits + 1; }
            if south[x] { n_exits = n_exits + 1; }
            if west[x] { n_exits = n_exits + 1; }
            if east[x] { n_exits = n_exits + 1; }
            proof {
                if n_exits > 0 {
                    if !(exists|d: int, slot: int| 0 <= d < 4 && 0 <= slot < x && #[trigger] edge_open(p@, cs, d, slot)) {
                        assert(north@[x as int] || south@[x as int] || west@[x as int] || east@[x as int]);
                        if north@[x as int] { assert(edge_open(p@, cs, 0, x as int)); }
                        else if south@[x as int] { assert(edge_open(p@, cs, 1, x as int)); }
                        else if west@[x as int] { assert(edge_open(p@, cs, 2, x as int)); }
                        else { assert(edge_open(p@, cs, 3, x as int)); }
                    }
                } else {
                    assert forall|d: int, slot: int| 0 <= d < 4 && 0 <= slot < x + 1 implies !#[trigger] edge_open(p@, cs, d, slot) by {
                        if slot == x {
                            if d == 0 { assert(!north@[x as int]); }
                            else if d == 1 { assert(!south@[x as int]); }
                            else if d == 2 { assert(!west@[x as int]); }
                            else { assert(!east@[x as int]); }
                        }
                    }
                }
            }
            x = x + 1;
        }
        let exits = [north, south, west, east];
        proof {
            assert forall|d: int| 0 <= d < 4 implies (#[trigger] exits@[d])@.len() == cs by {}
            assert forall|d: int, slot: int| 0 <= d < 4 && 0 <= slot < cs implies (#[trigger] exits@[d]@[slot]) == edge_open(ps[i as int], cs, d, slot) by {
                if d == 0 { assert(exits@[d] == north); }
                else if d == 1 { assert(exits@[d] == south); }
                else if d == 2 { assert(exits@[d] == west); }
                else { assert(exits@[d] == east); }
            }
            assert((n_exits > 0) == pattern_has_exits(ps[i as int], cs));
        }
        first.push((exits, n_exits > 0));
        i = i + 1;
    }
    let mut constraints: Vec<MapChunk> = Vec::new();
    let mut i: usize = 0;
    while i < n
        invariant
            1 <= chunk_size,
            n > 0 ==> chunk_size * chunk_size <= i32::MAX + 1,
            cs == chunk_size,
            n == patterns@.len(),
            ps == pattern_seqs(patterns@),
            forall|k: int| 0 <= k < patterns@.len() ==> (#[trigger] patterns@[k])@.len() == cs * cs,
            first@.len() == n,
            forall|k: int, d: int| 0 <= k < n && 0 <= d < 4 ==> (#[trigger] first@[k].0@[d])@.len() == cs,
            forall|k: int, d: int, slot: int| 0 <= k < n && 0 <= d < 4 && 0 <= slot < cs ==> (#[trigger] first@[k].0@[d]@[slot]) == edge_open(ps[k], cs, d, slot),
            forall|k: int| 0 <= k < n ==> (#[trigger] first@[k]).1 == pattern_has_exits(ps[k], cs),
            i <= n,
            constraints@.len() == i,
            forall|k: int| 0 <= k < i ==> chunk_of(#[trigger] constraints@[k], ps, k, cs),
        decreases n - i,
    {
        let mut c0: Vec<usize> = Vec::new();
        let mut c1: Vec<usize> = Vec::new();
        let mut c2: Vec<usize> = Vec::new();
        let mut c3: Vec<usize> = Vec::new();
        let mut j: usize = 0;
        while j < n
            invariant
                1 <= chunk_size,
                cs == chunk_size,
                n == ps.len(),
                first@.len() == n,
                forall|k: int, d: int| 0 <= k < n && 0 <= d < 4 ==> (#[trigger] first@[k].0@[d])@.len() == cs,
                forall|k: int, d: int, slot: int| 0 <= k < n && 0 <= d < 4 && 0 <= slot < cs ==> (#[trigger] first@[k].0@[d]@[slot]) == edge_open(ps[k], cs, d, slot),
                forall|k: int| 0 <= k < n ==> (#[trigger] first@[k]).1 == pattern_has_exits(ps[k], cs),
                i < n,
                j <= n,
                c0@ == compatible_upto(ps, i as int, cs, 0, j as nat),
                c1@ == compatible_upto(ps, i as int, cs, 1, j as nat),
                c2@ == compatible_upto(ps, i as int, cs, 2, j as nat),
                c3@ == compatible_upto(ps, i as int, cs, 3, j as nat),
            decreases n - j,
        {
            let me = &first[i];
            let other = &first[j];
            proof {
                assert forall|d: int| 0 <= d < 4 implies (#[trigger] me.0@[d])@.len() == cs && other.0@[d]@.len() == cs by {
                    assert(first@[i as int].0@[d]@.len() == cs);
                    assert(first@[j as int].0@[d]@.len() == cs);
                }
                assert forall|d: int, slot: int| 0 <= d < 4 && 0 <= slot < cs implies (#[trigger] me.0@[d]@[slot]) == edge_open(ps[i as int], cs, d, slot) by {
                    assert(first@[i as int].0@[d]@[slot] == edge_open(ps[i as int], cs, d, slot));
                }
                assert forall|d: int, slot: int| 0 <= d < 4 && 0 <= slot < cs implies (#[trigger] other.0@[d]@[slot]) == edge_open(ps[j as int], cs, d, slot) by {
                    assert(first@[j as int].0@[d]@[slot] == edge_open(ps[j as int], cs, d, slot));
                }
            }
            if sides_compatible(&me.0, me.1, &other.0, other.1, 0, Ghost(ps[i as int]), Ghost(ps[j as int]), chunk_size) { c0.push(j); }
            if sides_compatible(&me.0, me.1, &other.0, other.1, 1, Ghost(ps[i as int]), Ghost(ps[j as int]), chunk_size) { c1.push(j); }
            if sides_compatible(&me.0, me.1, &other.0, other.1, 2, Ghost(ps[i as int]), Ghost(ps[j as int]), chunk_size) { c2.push(j); }
            if sides_compatible(&me.0, me.1, &other.0, other.1, 3, Ghost(ps[i as int]), Ghost(ps[j as int]), chunk_size) { c3.push(j); }
            j = j + 1;
        }
        let chunk = MapChunk {
            pattern: copy_pattern(&patterns[i]),
            exits: [copy_bools(&first[i].0[0]), copy_bools(&first[i].0[1]), copy_bools(&first[i].0[2]), copy_bools(&first[i].0[3])],
            has_exits: first[i].1,
            compatible_with: [c0, c1, c2, c3],
        };
        proof {
            let c = chunk;
            assert(c.pattern@ == ps[i as int]);
            assert forall|d: int| 0 <= d < 4 implies (#[trigger] c.exits@[d])@.len() == cs by {
                assert(first@[i as int].0@[d]@.len() == cs);
            }
            assert forall|d: int, slot: int| 0 <= d < 4 && 0 <= slot < cs implies (#[trigger] c.exits@[d]@[slot]) == edge_open(ps[i as int], cs, d, slot) by {
                assert(first@[i as int].0@[d]@[slot] == edge_open(ps[i as int], cs, d, slot));
            }
            assert forall|d: int| 0 <= d < 4 implies (#[trigger] c.compatible_with@[d])@ == compatible_upto(ps, i as int, cs, d, ps.len()) by {}
        }
        constraints.push(chunk);
        i = i + 1;
    }
    constraints
}

fn copy_bools(v: &Vec<bool>) -> (w: Vec<bool>)
    ensures
        w@ == v@,
{
    let mut w: Vec<bool> = Vec::new();
    let mut i: usize = 0;
    while i < v.len()
        invariant
            i <= v@.len(),
            w@ == v@.subrange(0, i as int),
        decreases v@.len() - i,
    {
        w.push(v[i]);
        i = i + 1;
    }
    assert(w@ =~= v@);
    w
}

/// Edge slot marks of a chunk drawn with its top-left corner at `(sx, sy)` put down stairs
/// at `(a, b)`: a marked slot of its north, south, west or east edge.
pub open spec fn exit_mark(c: MapChunk, cs: int, sx: int, sy: int, a: int, b: int) -> bool {
    ||| b == sy && 0 <= a - sx < c.exits@[0]@.len() && c.exits@[0]@[a - sx]
    ||| b == sy + cs - 1 && 0 <= a - sx < c.exits@[1]@.len() && c.exits@[1]@[a - sx]
    ||| a == sx && 0 <= b - sy < c.exits@[2]@.len() && c.exits@[2]@[b - sy]
    ||| a == sx + cs - 1 && 0 <= b - sy < c.exits@[3]@.len() && c.exits@[3]@[b - sy]
}

/// Marks the slots `marks` of an edge as down stairs: along the row from `(sx, sy)` when
/// `along_row`, else down the column.
fn mark_edge(map: &mut GameMap, marks: &Vec<bool>, sx: i32, sy: i32, along_row: bool)
    requires
        old(map).wf(),
        0 <= sx,
        0 <= sy,
        along_row ==> sx + marks@.len() <= old(map).width && sy < old(map).height,
        !along_row ==> sy + marks@.len() <= old(map).height && sx < old(map).width,
    ensures
        final(map).wf(),
        final(map).same_frame(*old(map)),
        forall|a: int, b: int| #![trigger final(map).tile(a, b)] final(map).on_map(a, b) ==> final(map).tile(a, b) ==
            if (along_row && b == sy && 0 <= a - sx < marks@.len() && marks@[a - sx])
                || (!along_row && a == sx && 0 <= b - sy < marks@.len() && marks@[b - sy]) {
                TileType::DownStairs
            } else {
                old(map).tile(a, b)
            },
{
    let ghost m0 = *map;
    let mut i: usize = 0;
    while i < marks.len()
        invariant
            map.wf(),
            map.same_frame(m0),
            0 <= sx,
            0 <= sy,
            along_row ==> sx + marks@.len() <= map.width && sy < map.height,
            !along_row ==> sy + marks@.len() <= map.height && sx < map.width,
            i <= marks@.len(),
            forall|a: int, b: int| #![trigger map.tile(a, b)] map.on_map(a, b) ==> map.tile(a, b) ==
                if (along_row && b == sy && 0 <= a - sx < i && marks@[a - sx])
                    || (!along_row && a == sx && 0 <= b - sy < i && marks@[b - sy]) {
                    TileType::DownStairs
                } else {
                    m0.tile(a, b)
                },
        decreases marks@.len() - i,
    {
        if marks[i] {
            if along_row {
                map.set_tile(sx as usize + i, sy as usize, TileType::DownStairs);
            } else {
                map.set_tile(sx as usize, sy as usize + i, TileType::DownStairs);
            }
        }
        i = i + 1;
    }
}

/// Draws a chunk with its top-left corner at `(start_x, start_y)`: its pattern, shown as
/// seen, then its open edge slots as down stairs.
pub fn render_pattern_to_map(map: &mut GameMap, chunk: &MapChunk, chunk_size: i32, start_x: i32, start_y: i32)
    requires
        old(map).wf(),
        1 <= chunk_size,
        chunk.pattern@.len() >= chunk_size * chunk_size,
        forall|d: int| 0 <= d < 4 ==> (#[trigger] chunk.exits@[d])@.len() <= chunk_size,
        0 <= start_x,
        0 <= start_y,
        start_x + chunk_size <= old(map).width,
        start_y + chunk_size <= old(map).height,
    ensures
        final(map).wf(),
        final(map).width == old(map).width,
        final(map).height == old(map).height,
        final(map).depth == old(map).depth,
        final(map).revealed_tiles == old(map).revealed_tiles,
        final(map).blocked == old(map).blocked,
        final(map).bloodstains == old(map).bloodstains,
        forall|a: int, b: int| #![trigger final(map).tile(a, b)] final(map).on_map(a, b) ==> final(map).tile(a, b) ==
            if start_x <= a < start_x + chunk_size && start_y <= b < start_y + chunk_size {
                if exit_mark(*chunk, chunk_size as int, start_x as int, start_y as int, a, b) {
                    TileType::DownStairs
                } else {
                    chunk.pattern@[(b - start_y) * chunk_size + (a - start_x)]
                }
            } else {
                old(map).tile(a, b)
            },
        forall|a: int, b: int| #![trigger final(map).visible_tiles@[a]@[b]] final(map).on_map(a, b) ==> final(map).visible_tiles@[a]@[b] ==
            ((start_x <= a < start_x + chunk_size && start_y <= b < start_y + chunk_size) || old(map).visible_tiles@[a]@[b]),
{
    let ghost m0 = *map;
    crate::map_builders::waveform_collapse::solver::draw_pattern(map, &chunk.pattern, chunk_size, start_x, start_y);
    let ghost m1 = *map;
    let mut y = start_y;
    while y < start_y + chunk_size
        invariant
            map.wf(),
            map.tiles == m1.tiles,
            map.width == m0.width,
            map.height == m0.height,
            map.depth == m0.depth,
            map.revealed_tiles == m0.revealed_tiles,
            map.blocked == m0.blocked,
            map.bloodstains == m0.bloodstains,
            1 <= chunk_size,
            0 <= start_x,
            0 <= start_y,
            start_x + chunk_size <= map.width,
            start_y + chunk_size <= map.height,
            start_y <= y <= start_y + chunk_size,
            forall|a: int, b: int| #![trigger map.visible_tiles@[a]@[b]] map.on_map(a, b) ==> map.visible_tiles@[a]@[b] ==
                ((start_x <= a < start_x + chunk_size && start_y <= b < y) || m0.visible_tiles@[a]@[b]),
        decreases start_y + chunk_size - y,
    {
        let mut x = start_x;
        while x < start_x + chunk_size
            invariant
                map.wf(),
                map.tiles == m1.tiles,
                map.width == m0.width,
                map.height == m0.height,
                map.depth == m0.depth,
                map.revealed_tiles == m0.revealed_tiles,
                map.blocked == m0.blocked,
                map.bloodstains == m0.bloodstains,
                1 <= chunk_size,
                0 <= start_x,
                0 <= start_y,
                start_x + chunk_size <= map.width,
                start_y + chunk_size <= map.height,
                start_y <= y < start_y + chunk_size,
                start_x <= x <= start_x + chunk_size,
                forall|a: int, b: int| #![trigger map.visible_tiles@[a]@[b]] map.on_map(a, b) ==> map.visible_tiles@[a]@[b] ==
                    ((start_x <= a < start_x + chunk_size && (start_y <= b < y || (b == y && a < x))) || m0.visible_tiles@[a]@[b]),
            decreases start_x + chunk_size - x,
        {
            crate::map::grid_set(&mut map.visible_tiles, x as usize, y as usize, true);
            x = x + 1;
        }
        y = y + 1;
    }
    let ghost m2 = *map;
    assert(chunk.exits@[0]@.len() <= chunk_size);
    assert(chunk.exits@[1]@.len() <= chunk_size);
    assert(chunk.exits@[2]@.len() <= chunk_size);
    assert(chunk.exits@[3]@.len() <= chunk_size);
    mark_edge(map, &chunk.exits[0], start_x, start_y, true);
    mark_edge(map, &chunk.exits[1], start_x, start_y + chunk_size - 1, true);
    mark_edge(map, &chunk.exits[2], start_x, start_y, false);
    mark_edge(map, &chunk.exits[3], start_x + chunk_size - 1, start_y, false);
    proof {
        assert forall|a: int, b: int| #![trigger map.tile(a, b)] map.on_map(a, b) implies map.tile(a, b) ==
            if start_x <= a < start_x + chunk_size && start_y <= b < start_y + chunk_size {
                if exit_mark(*chunk, chunk_size as int, start_x as int, start_y as int, a, b) {
                    TileType::DownStairs
                } else {
                    chunk.pattern@[(b - start_y) * chunk_size + (a - start_x)]
                }
            } else {
                m0.tile(a, b)
            } by {
            assert(m1.tile(a, b) == m2.tile(a, b));
        }
    }
}

} // verus!
