//! The generation scheduler: which chunks are handed out for generation, and
//! how what was generated comes back into the registry.
//!
//! The generation itself runs elsewhere, on values handed out here. Only
//! these functions move a chunk from one state to the next, so that a chunk
//! is handed out once for its tiles and once for its resources.

use vstd::prelude::*;
use crate::chunking::follows;
use crate::chunking::ChunkData;
use crate::chunking::ChunkManager;
use crate::chunking::ChunkState;
use crate::coords::IVec2;
use crate::terrain::ResourceKind;
use crate::terrain::TileKind;

verus! {

/// Why what was generated for a chunk was not installed.
#[derive(Clone, Copy, Debug, PartialEq, Eq, Structural)]
pub enum InstallError {
    /// The registry holds no chunk at the coordinate.
    UnknownChunk,
    /// The chunk does not wait for what was handed in.
    NotPending,
    /// The array does not hold one entry for each tile of a chunk.
    WrongLength,
}

/// What a tick of the scheduler does to a chunk that waits in `from`: it
/// moves to `to`; every other chunk stays as it is.
pub open spec fn moved(chunks: Map<IVec2, ChunkData>, from: ChunkState, to: ChunkState) -> Map<
    IVec2,
    ChunkData,
> {
    Map::new(
        |c: IVec2| chunks.contains_key(c),
        |c: IVec2|
            if chunks[c].state == from {
                chunks[c].with_state(to)
            } else {
                chunks[c]
            },
    )
}

/// Start the generation of the chunks of `coords`, all of which wait in
/// `from`, one after the other.
fn start_all(manager: &mut ChunkManager, coords: &Vec<IVec2>, tiles: bool)
    requires
        old(manager).wf(),
        coords@.no_duplicates(),
        forall|c: IVec2|
            coords@.contains(c) <==> old(manager).in_state(
                c,
                if tiles {
                    ChunkState::Spawned
                } else {
                    ChunkState::TileGenerated
                },
            ),
    ensures
        final(manager).wf(),
        final(manager).same_sizes(old(manager)),
        follows(old(manager).chunks(), final(manager).chunks()),
        final(manager).visible() == old(manager).visible(),
        final(manager).chunks() == moved(
            old(manager).chunks(),
            if tiles {
                ChunkState::Spawned
            } else {
                ChunkState::TileGenerated
            },
            if tiles {
                ChunkState::TileGenerationPending
            } else {
                ChunkState::ResourceGenerationPending
            },
        ),
        forall|c: IVec2|
            final(manager).tile_dispatches(c) == old(manager).tile_dispatches(c) + if tiles
                && coords@.contains(c) {
                1nat
            } else {
                0nat
            },
        forall|c: IVec2|
            final(manager).resource_dispatches(c) == old(manager).resource_dispatches(c) + if !tiles
                && coords@.contains(c) {
                1nat
            } else {
                0nat
            },
{
    let ghost from = if tiles {
        ChunkState::Spawned
    } else {
        ChunkState::TileGenerated
    };
    let ghost to = if tiles {
        ChunkState::TileGenerationPending
    } else {
        ChunkState::ResourceGenerationPending
    };
    let mut i: usize = 0;
    while i < coords.len()
        invariant
            0 <= i <= coords@.len(),
            manager.wf(),
            manager.same_sizes(old(manager)),
            manager.visible() == old(manager).visible(),
            coords@.no_duplicates(),
            from == if tiles {
                ChunkState::Spawned
            } else {
                ChunkState::TileGenerated
            },
            to == if tiles {
                ChunkState::TileGenerationPending
            } else {
                ChunkState::ResourceGenerationPending
            },
            forall|c: IVec2| coords@.contains(c) <==> old(manager).in_state(c, from),
            forall|c: IVec2|
                manager.chunks().contains_key(c) <==> old(manager).chunks().contains_key(c),
            forall|c: IVec2| #[trigger]
                manager.chunks().contains_key(c) ==> manager.chunks()[c] == if coords@.take(
                    i as int,
                ).contains(c) {
                    old(manager).chunks()[c].with_state(to)
                } else {
                    old(manager).chunks()[c]
                },
            forall|c: IVec2|
                manager.tile_dispatches(c) == old(manager).tile_dispatches(c) + if tiles
                    && coords@.take(i as int).contains(c) {
                    1nat
                } else {
                    0nat
                },
            forall|c: IVec2|
                manager.resource_dispatches(c) == old(manager).resource_dispatches(c) + if !tiles
                    && coords@.take(i as int).contains(c) {
                    1nat
                } else {
                    0nat
                },
        decreases coords@.len() - i,
    {
        let coord = coords[i];
        let ghost before = *manager;
        proof {
            assert(coords@.contains(coord));
            assert(!coords@.take(i as int).contains(coord)) by {
                if coords@.take(i as int).contains(coord) {
                    let j = choose|j: int|
                        0 <= j < coords@.take(i as int).len() && coords@.take(i as int)[j] == coord;
                    assert(coords@[j] == coords@[i as int]);
                }
            }
            assert(manager.chunks().contains_key(coord));
            assert(coords@.take(i as int + 1) =~= coords@.take(i as int).push(coord));
            assert forall|c: IVec2|
                coords@.take(i as int + 1).contains(c) <==> (c == coord || coords@.take(
                    i as int,
                ).contains(c)) by {
                let s = coords@.take(i as int);
                let t = s.push(coord);
                if t.contains(c) {
                    let j = choose|j: int| 0 <= j < t.len() && t[j] == c;
                    if j < s.len() {
                        assert(s[j] == c);
                    }
                }
                if s.contains(c) {
                    let j = choose|j: int| 0 <= j < s.len() && s[j] == c;
                    assert(t[j] == c);
                }
                assert(t[s.len() as int] == coord);
            }
        }
        if tiles {
            manager.start_tile_generation(coord);
        } else {
            manager.start_resource_generation(coord);
        }
        i = i + 1;
    }
    proof {
        assert(coords@.take(coords@.len() as int) =~= coords@);
        assert(manager.chunks() =~= moved(old(manager).chunks(), from, to));
    }
}

/// One tick of the scheduler for the tiles: every chunk that is `Spawned`
/// goes to `TileGenerationPending`, and its coordinate is handed out, once,
/// for the generation of its tiles. A chunk in any other state is left
/// alone, so that no chunk is handed out a second time.
pub fn generate_terrain_task(manager: &mut ChunkManager) -> (dispatched: Vec<IVec2>)
    requires
        old(manager).wf(),
    ensures
        final(manager).wf(),
        final(manager).same_sizes(old(manager)),
        follows(old(manager).chunks(), final(manager).chunks()),
        final(manager).visible() == old(manager).visible(),
        dispatched@.no_duplicates(),
        forall|c: IVec2| dispatched@.contains(c) <==> old(manager).in_state(c, ChunkState::Spawned),
        final(manager).chunks() == moved(
            old(manager).chunks(),
            ChunkState::Spawned,
            ChunkState::TileGenerationPending,
        ),
        forall|c: IVec2|
            final(manager).tile_dispatches(c) == old(manager).tile_dispatches(c)
                + if dispatched@.contains(c) {
                1nat
            } else {
                0nat
            },
        forall|c: IVec2|
            final(manager).resource_dispatches(c) == old(manager).resource_dispatches(c),
{
    let dispatched = manager.coords_in_state(ChunkState::Spawned);
    start_all(manager, &dispatched, true);
    dispatched
}

/// One tick of the scheduler for the resources: every chunk that is
/// `TileGenerated` goes to `ResourceGenerationPending`, and its coordinate is
/// handed out, once, for the generation of its resources. The tiles of such
/// a chunk are installed, so that the generation can read them.
pub fn generate_resource_task(manager: &mut ChunkManager) -> (dispatched: Vec<IVec2>)
    requires
        old(manager).wf(),
    ensures
        final(manager).wf(),
        final(manager).same_sizes(old(manager)),
        follows(old(manager).chunks(), final(manager).chunks()),
        final(manager).visible() == old(manager).visible(),
        dispatched@.no_duplicates(),
        forall|c: IVec2|
            dispatched@.contains(c) <==> old(manager).in_state(c, ChunkState::TileGenerated),
        final(manager).chunks() == moved(
            old(manager).chunks(),
            ChunkState::TileGenerated,
            ChunkState::ResourceGenerationPending,
        ),
        forall|c: IVec2| final(manager).tile_dispatches(c) == old(manager).tile_dispatches(c),
        forall|c: IVec2|
            final(manager).resource_dispatches(c) == old(manager).resource_dispatches(c)
                + if dispatched@.contains(c) {
                1nat
            } else {
                0nat
            },
{
    let dispatched = manager.coords_in_state(ChunkState::TileGenerated);
    start_all(manager, &dispatched, false);
    dispatched
}

/// Whether the registry takes an array of `len` entries for the chunk at
/// `coord`, which has to wait in `pending`, and if not, why not.
pub open spec fn install_verdict(
    manager: &ChunkManager,
    coord: IVec2,
    pending: ChunkState,
    len: nat,
) -> Result<(), InstallError> {
    if !manager.chunks().contains_key(coord) {
        Err(InstallError::UnknownChunk)
    } else if manager.chunks()[coord].state != pending {
        Err(InstallError::NotPending)
    } else if len != manager.spec_size().x as int * manager.spec_size().y as int {
        Err(InstallError::WrongLength)
    } else {
        Ok(())
    }
}

/// The number of tiles of a chunk, where it can be counted.
fn tile_count(manager: &ChunkManager) -> (count: Option<usize>)
    ensures
        match count {
            Some(n) => n == manager.spec_size().x as int * manager.spec_size().y as int,
            None => manager.spec_size().x as int * manager.spec_size().y as int > usize::MAX,
        },
{
    let size = manager.size();
    proof {
        let w = size.x as int;
        let h = size.y as int;
        assert(0 <= w * h <= 0xffff_ffff * 0xffff_ffff) by (nonlinear_arith)
            requires
                0 <= w <= 0xffff_ffff,
                0 <= h <= 0xffff_ffff,
        ;
    }
    let count: u64 = size.x as u64 * size.y as u64;
    if count > usize::MAX as u64 {
        None
    } else {
        Some(count as usize)
    }
}

/// Take in the tiles that were generated for the chunk at `coord`. They are
/// installed where the chunk waits for them and the array has one entry
/// for each tile; otherwise the registry stays as it is, and the error says
/// what was wrong.
pub fn handle_generate_terrain_task(manager: &mut ChunkManager, coord: IVec2, tiles: Vec<TileKind>) -> (result:
    Result<(), InstallError>)
    requires
        old(manager).wf(),
    ensures
        final(manager).wf(),
        final(manager).same_sizes(old(manager)),
        follows(old(manager).chunks(), final(manager).chunks()),
        final(manager).same_counts(old(manager)),
        final(manager).visible() == old(manager).visible(),
        result == install_verdict(
            old(manager),
            coord,
            ChunkState::TileGenerationPending,
            tiles@.len(),
        ),
        final(manager).chunks() == if result is Ok {
            old(manager).chunks().insert(
                coord,
                ChunkData {
                    state: ChunkState::TileGenerated,
                    tiles: tiles@,
                    resources: Seq::empty(),
                },
            )
        } else {
            old(manager).chunks()
        },
{
    let len: usize = tiles.len();
    match manager.state(&coord) {
        None => Err(InstallError::UnknownChunk),
        Some(state) => {
            if state != ChunkState::TileGenerationPending {
                Err(InstallError::NotPending)
            } else {
                match tile_count(manager) {
                    None => Err(InstallError::WrongLength),
                    Some(count) => {
                        if len != count {
                            Err(InstallError::WrongLength)
                        } else {
                            manager.install_tiles(coord, tiles);
                            Ok(())
                        }
                    },
                }
            }
        },
    }
}

/// Take in the resources that were generated for the chunk at `coord`. They
/// are installed where the chunk waits for them and the array has one entry
/// for each tile; otherwise the registry stays as it is, and the error says
/// what was wrong.
pub fn handle_generate_resource_task(
    manager: &mut ChunkManager,
    coord: IVec2,
    resources: Vec<ResourceKind>,
) -> (result: Result<(), InstallError>)
    requires
        old(manager).wf(),
    ensures
        final(manager).wf(),
        final(manager).same_sizes(old(manager)),
        follows(old(manager).chunks(), final(manager).chunks()),
        final(manager).same_counts(old(manager)),
        final(manager).visible() == old(manager).visible(),
        result == install_verdict(
            old(manager),
            coord,
            ChunkState::ResourceGenerationPending,
            resources@.len(),
        ),
        final(manager).chunks() == if result is Ok {
            old(manager).chunks().insert(
                coord,
                ChunkData {
                    state: ChunkState::ResourceGenerated,
                    tiles: old(manager).chunks()[coord].tiles,
                    resources: resources@,
                },
            )
        } else {
            old(manager).chunks()
        },
{
    let len: usize = resources.len();
    match manager.state(&coord) {
        None => Err(InstallError::UnknownChunk),
        Some(state) => {
            if state != ChunkState::ResourceGenerationPending {
                Err(InstallError::NotPending)
            } else {
                match tile_count(manager) {
                    None => Err(InstallError::WrongLength),
                    Some(count) => {
                        if len != count {
                            Err(InstallError::WrongLength)
                        } else {
                            manager.install_resources(coord, resources);
                            Ok(())
                        }
                    },
                }
            }
        },
    }
}

/// However the registry was brought to where it is, the generation of the
/// tiles of a coordinate was started once at most, and so was the
/// generation of its resources.
pub proof fn lemma_dispatched_at_most_once(manager: &ChunkManager, coord: IVec2)
    requires
        manager.wf(),
    ensures
        manager.tile_dispatches(coord) <= 1,
        manager.resource_dispatches(coord) <= 1,
{
}

/// A chunk that a tick handed out for its tiles is never handed out for
/// them again: whatever was done to the registry since, the chunk does not
/// wait for its tiles any more.
pub proof fn lemma_tiles_started_once(
    before: Map<IVec2, ChunkData>,
    later: Map<IVec2, ChunkData>,
    coord: IVec2,
)
    requires
        before.contains_key(coord),
        before[coord].state == ChunkState::Spawned,
        follows(moved(before, ChunkState::Spawned, ChunkState::TileGenerationPending), later),
    ensures
        later.contains_key(coord),
        later[coord].state != ChunkState::Spawned,
        moved(later, ChunkState::Spawned, ChunkState::TileGenerationPending)[coord] == later[coord],
{
    let started = moved(before, ChunkState::Spawned, ChunkState::TileGenerationPending);
    assert(started.contains_key(coord));
    assert(started[coord].state.rank() == 1);
}

/// A chunk that a tick handed out for its resources is never handed out for
/// them again, and its tiles stay as they were when it was handed out.
pub proof fn lemma_resources_started_once(
    before: Map<IVec2, ChunkData>,
    later: Map<IVec2, ChunkData>,
    coord: IVec2,
)
    requires
        before.contains_key(coord),
        before[coord].state == ChunkState::TileGenerated,
        follows(
            moved(before, ChunkState::TileGenerated, ChunkState::ResourceGenerationPending),
            later,
        ),
    ensures
        later.contains_key(coord),
        later[coord].state != ChunkState::TileGenerated,
        later[coord].tiles == before[coord].tiles,
        moved(later, ChunkState::TileGenerated, ChunkState::ResourceGenerationPending)[coord]
            == later[coord],
{
    let started = moved(before, ChunkState::TileGenerated, ChunkState::ResourceGenerationPending);
    assert(started.contains_key(coord));
    assert(started[coord].state.rank() == 3);
}

} // verus!
