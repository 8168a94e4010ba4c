use vstd::prelude::*;

use crate::map_builders::BuilderMap;
use crate::random_tables::RandomTable;
use crate::spawner::{lemma_regions_spawned_step, regions_spawned, spawn_region, table_outcome};

verus! {

/// Spawns things along the corridors.
pub struct CorridorSpawner {}

/// Some corridor runs through `(x, y)`, its coordinates taken as `i32`.
pub open spec fn on_some_corridor(cs: Seq<Vec<(usize, usize)>>, x: i32, y: i32) -> bool {
    exists|i: int, k: int| 0 <= i < cs.len() && 0 <= k < cs[i]@.len() && (#[trigger] cs[i]@[k]).0 as i32 == x && cs[i]@[k].1 as i32 == y
}

/// The tiles of a corridor, their coordinates taken as `i32`.
pub open spec fn corridor_tiles(c: Vec<(usize, usize)>) -> Seq<(i32, i32)> {
    c@.map_values(|p: (usize, usize)| (p.0 as i32, p.1 as i32))
}

impl CorridorSpawner {
    /// A corridor spawner.
    pub fn new() -> (b: Box<CorridorSpawner>) {
        Box::new(CorridorSpawner {})
    }

    /// Treats each corridor as a region and spawns in it from `table`, at the map's depth.
    /// Spawns are only added to the spawn list, each on a corridor tile.
    pub fn build(&mut self, rng: &mut bracket_lib::random::RandomNumberGenerator, build_data: &mut BuilderMap, table: &RandomTable)
        requires
            old(build_data).wf(),
            old(build_data).corridors is Some,
            forall|i: int| 0 <= i < old(build_data).corridors->0@.len() ==> (#[trigger] old(build_data).corridors->0@[i])@.len() < i32::MAX,
            -1_000_000_000 <= old(build_data).map.depth <= 1_000_000_000,
            table.spec_total() < i32::MAX,
        ensures
            final(build_data).wf(),
            final(build_data).map == old(build_data).map,
            final(build_data).starting_position == old(build_data).starting_position,
            final(build_data).rooms == old(build_data).rooms,
            final(build_data).corridors == old(build_data).corridors,
            final(build_data).width == old(build_data).width,
            final(build_data).height == old(build_data).height,
            final(build_data).history == old(build_data).history,
            final(build_data).spawn_list@.len() >= old(build_data).spawn_list@.len(),
            final(build_data).spawn_list@.subrange(0, old(build_data).spawn_list@.len() as int) == old(build_data).spawn_list@,
            forall|i: int| old(build_data).spawn_list@.len() <= i < final(build_data).spawn_list@.len() ==> {
                &&& on_some_corridor(old(build_data).corridors->0@, (#[trigger] final(build_data).spawn_list@[i]).0.0, final(build_data).spawn_list@[i].0.1)
                &&& table_outcome(table, final(build_data).spawn_list@[i].1)
            },
            regions_spawned(final(build_data).spawn_list@.subrange(old(build_data).spawn_list@.len() as int, final(build_data).spawn_list@.len() as int),
                old(build_data).corridors->0@.map_values(|c: Vec<(usize, usize)>| corridor_tiles(c)), old(build_data).map.depth as int, table,
                old(build_data).corridors->0@.len() as int),
    {
        let ghost b0 = *build_data;
        let ghost n = b0.spawn_list@.len();
        let depth = build_data.map.depth;
        match &build_data.corridors {
            Some(corridors) => {
                let ghost cs = corridors@;
                let ghost areas = cs.map_values(|c: Vec<(usize, usize)>| corridor_tiles(c));
                proof {
                    assert(build_data.spawn_list@.subrange(n as int, build_data.spawn_list@.len() as int) =~= Seq::empty());
                }
                let mut c: usize = 0;
                while c < corridors.len()
                    invariant
                        build_data.wf(),
                        build_data.map == b0.map,
                        build_data.starting_position == b0.starting_position,
                        build_data.rooms == b0.rooms,
                        build_data.corridors == b0.corridors,
                        build_data.width == b0.width,
                        build_data.height == b0.height,
                        build_data.history == b0.history,
                        cs == corridors@,
                        cs == b0.corridors->0@,
                        forall|i: int| 0 <= i < cs.len() ==> (#[trigger] cs[i])@.len() < i32::MAX,
                        depth == b0.map.depth,
                        -1_000_000_000 <= depth <= 1_000_000_000,
                        table.spec_total() < i32::MAX,
                        c <= cs.len(),
                        build_data.spawn_list@.len() >= n,
                        build_data.spawn_list@.subrange(0, n as int) == b0.spawn_list@,
                        forall|i: int| n <= i < build_data.spawn_list@.len() ==> {
                            &&& on_some_corridor(cs, (#[trigger] build_data.spawn_list@[i]).0.0, build_data.spawn_list@[i].0.1)
                            &&& table_outcome(table, build_data.spawn_list@[i].1)
                        },
                        areas == cs.map_values(|c: Vec<(usize, usize)>| corridor_tiles(c)),
                        regions_spawned(build_data.spawn_list@.subrange(n as int, build_data.spawn_list@.len() as int), areas, depth as int, table, c as int),
                    decreases cs.len() - c,
                {
                    let corridor = &corridors[c];
                    let mut cor: Vec<(i32, i32)> = Vec::new();
                    let mut k: usize = 0;
                    while k < corridor.len()
                        invariant
                            k <= corridor@.len(),
                            cor@.len() == k,
                            forall|q: int| 0 <= q < k ==> (#[trigger] cor@[q]).0 == corridor@[q].0 as i32 && cor@[q].1 == corridor@[q].1 as i32,
                        decreases corridor@.len() - k,
                    {
                        cor.push((corridor[k].0 as i32, corridor[k].1 as i32));
                        k = k + 1;
                    }
                    let ghost before = build_data.spawn_list@;
                    spawn_region(rng, &cor, depth, table, &mut build_data.spawn_list);
                    proof {
                        let added = build_data.spawn_list@.subrange(before.len() as int, build_data.spawn_list@.len() as int);
                        assert forall|i: int| n <= i < build_data.spawn_list@.len() implies {
                            &&& on_some_corridor(cs, (#[trigger] build_data.spawn_list@[i]).0.0, build_data.spawn_list@[i].0.1)
                            &&& table_outcome(table, build_data.spawn_list@[i].1)
                        } by {
                            if i < before.len() {
                                assert(build_data.spawn_list@.subrange(0, before.len() as int)[i] == before[i]);
                            } else {
                                let e = build_data.spawn_list@[i];
                                assert(added[i - before.len()] == e);
                                assert(cor@.contains(e.0));
                                let q = choose|q: int| 0 <= q < cor@.len() && cor@[q] == e.0;
                                assert(cs[c as int]@[q].0 as i32 == e.0.0 && cs[c as int]@[q].1 as i32 == e.0.1);
                            }
                        }
                        assert(build_data.spawn_list@.subrange(0, n as int) =~= before.subrange(0, n as int));
                        assert(cor@ =~= areas[c as int]);
                        let prev = before.subrange(n as int, before.len() as int);
                        lemma_regions_spawned_step(prev, added, areas, depth as int, table, c as int);
                        assert(build_data.spawn_list@.subrange(n as int, build_data.spawn_list@.len() as int) =~= prev + added);
                    }
                    c = c + 1;
                }
            },
            None => {},
        }
    }
}

} // verus!
