//! The streaming controller: chunks near the viewer are entered into the
//! registry, the nearest of them are shown once they are generated, and the
//! shown ones that fell behind are hidden. No chunk ever leaves the registry.

use vstd::prelude::*;
use crate::chunking::follows;
use crate::chunking::ChunkData;
use crate::chunking::ChunkManager;
use crate::chunking::ChunkState;
use crate::coords::IVec2;
use crate::geometry::fits_i32;
use crate::geometry::world_pos_to_chunk_coord;
use crate::geometry::world_to_chunk;
use crate::seqs::lemma_push_contains;
use crate::seqs::lemma_push_no_duplicates;
use crate::seqs::lemma_take_next;

verus! {

/// How far from the viewer's chunk chunks are entered into the registry.
pub const SPAWN_CHUNK_RADIUS: i32 = 8;

/// How far from the viewer's chunk chunks are shown.
pub const LOAD_CHUNK_RADIUS: i32 = 3;

/// Whether every coordinate within `radius` of `center` is a chunk coordinate.
pub open spec fn reaches(center: IVec2, radius: int) -> bool {
    &&& 0 <= radius
    &&& fits_i32(center.x - radius)
    &&& fits_i32(center.x + radius)
    &&& fits_i32(center.y - radius)
    &&& fits_i32(center.y + radius)
}

/// The chunk that holds the world position `pos`, for the sizes of `manager`.
pub open spec fn camera_chunk(manager: &ChunkManager, pos: IVec2) -> IVec2 {
    IVec2 {
        x: world_to_chunk(pos.x as int, manager.spec_size().x, manager.spec_tile_size().x) as i32,
        y: world_to_chunk(pos.y as int, manager.spec_size().y, manager.spec_tile_size().y) as i32,
    }
}

/// Whether the chunks and the tiles of `manager` have sides longer than zero.
pub open spec fn sized(manager: &ChunkManager) -> bool {
    &&& manager.spec_size().x > 0
    &&& manager.spec_size().y > 0
    &&& manager.spec_tile_size().x > 0
    &&& manager.spec_tile_size().y > 0
}

/// The chunks after every coordinate within `radius` of `center` was
/// entered: what was there stays as it was, and what is new is `Spawned`.
pub open spec fn spawned_around(chunks: Map<IVec2, ChunkData>, center: IVec2, radius: int) -> Map<
    IVec2,
    ChunkData,
> {
    Map::new(
        |c: IVec2| chunks.contains_key(c) || center.chebyshev(c) <= radius,
        |c: IVec2|
            if chunks.contains_key(c) {
                chunks[c]
            } else {
                ChunkData::spawned()
            },
    )
}

/// The visible set after the chunks within `radius` of `center` whose
/// resources are installed were shown.
pub open spec fn loaded_around(
    visible: Set<IVec2>,
    chunks: Map<IVec2, ChunkData>,
    center: IVec2,
    radius: int,
) -> Set<IVec2> {
    Set::new(
        |c: IVec2|
            visible.contains(c) || (center.chebyshev(c) <= radius && chunks.contains_key(c)
                && chunks[c].state == ChunkState::ResourceGenerated),
    )
}

/// The visible set after the chunks farther than `radius` from `center`
/// were hidden.
pub open spec fn unloaded_outside(visible: Set<IVec2>, center: IVec2, radius: int) -> Set<IVec2> {
    Set::new(|c: IVec2| visible.contains(c) && center.chebyshev(c) <= radius)
}

/// Whether `c` lies in the rows before `row`, or in row `row` before column
/// `col`, of the square of half-width `radius` around `center`.
spec fn covered(center: IVec2, radius: int, row: int, col: int, c: IVec2) -> bool {
    let dx = c.x - center.x + radius;
    let dy = c.y - center.y + radius;
    &&& 0 <= dx <= 2 * radius
    &&& 0 <= dy <= 2 * radius
    &&& (dy < row || (dy == row && dx < col))
}

fn spawn_chunks_around(manager: &mut ChunkManager, center: IVec2, radius: i32) -> (created: Vec<
    IVec2,
>)
    requires
        old(manager).wf(),
        reaches(center, radius as int),
    ensures
        final(manager).wf(),
        final(manager).same_sizes(old(manager)),
        follows(old(manager).chunks(), final(manager).chunks()),
        final(manager).same_counts(old(manager)),
        final(manager).visible() == old(manager).visible(),
        final(manager).chunks() == spawned_around(old(manager).chunks(), center, radius as int),
        created@.no_duplicates(),
        forall|c: IVec2|
            created@.contains(c) <==> !old(manager).chunks().contains_key(c) && center.chebyshev(c)
                <= radius,
{
    let side: i64 = 2 * radius as i64 + 1;
    let mut created: Vec<IVec2> = Vec::new();
    let mut row: i64 = 0;
    while row < side
        invariant
            reaches(center, radius as int),
            side == 2 * radius + 1,
            0 <= row <= side,
            manager.wf(),
            manager.same_sizes(old(manager)),
            manager.same_counts(old(manager)),
            manager.visible() == old(manager).visible(),
            manager.chunks() == Map::new(
                |c: IVec2|
                    old(manager).chunks().contains_key(c) || covered(
                        center,
                        radius as int,
                        row as int,
                        0,
                        c,
                    ),
                |c: IVec2|
                    if old(manager).chunks().contains_key(c) {
                        old(manager).chunks()[c]
                    } else {
                        ChunkData::spawned()
                    },
            ),
            created@.no_duplicates(),
            forall|c: IVec2|
                created@.contains(c) <==> !old(manager).chunks().contains_key(c) && covered(
                    center,
                    radius as int,
                    row as int,
                    0,
                    c,
                ),
        decreases side - row,
    {
        let mut col: i64 = 0;
        while col < side
            invariant
                reaches(center, radius as int),
                side == 2 * radius + 1,
                0 <= row < side,
                0 <= col <= side,
                manager.wf(),
                manager.same_sizes(old(manager)),
                manager.same_counts(old(manager)),
                manager.visible() == old(manager).visible(),
                manager.chunks() == Map::new(
                    |c: IVec2|
                        old(manager).chunks().contains_key(c) || covered(
                            center,
                            radius as int,
                            row as int,
                            col as int,
                            c,
                        ),
                    |c: IVec2|
                        if old(manager).chunks().contains_key(c) {
                            old(manager).chunks()[c]
                        } else {
                            ChunkData::spawned()
                        },
                ),
                created@.no_duplicates(),
                forall|c: IVec2|
                    created@.contains(c) <==> !old(manager).chunks().contains_key(c) && covered(
                        center,
                        radius as int,
                        row as int,
                        col as int,
                        c,
                    ),
            decreases side - col,
        {
            let x: i64 = center.x as i64 - radius as i64 + col;
            let y: i64 = center.y as i64 - radius as i64 + row;
            let coord = IVec2 { x: x as i32, y: y as i32 };
            proof {
                assert forall|c: IVec2|
                    covered(center, radius as int, row as int, col + 1, c) <==> (c == coord
                        || covered(center, radius as int, row as int, col as int, c)) by {}
                lemma_push_contains(created@, coord);
            }
            if !manager.contains(&coord) {
                manager.insert(coord);
                proof {
                    lemma_push_no_duplicates(created@, coord);
                }
                created.push(coord);
            }
            col = col + 1;
        }
        proof {
            assert forall|c: IVec2|
                covered(center, radius as int, row as int, side as int, c) <==> covered(
                    center,
                    radius as int,
                    row + 1,
                    0,
                    c,
                ) by {}
        }
        row = row + 1;
    }
    proof {
        assert forall|c: IVec2|
            covered(center, radius as int, side as int, 0, c) <==> center.chebyshev(c)
                <= radius by {}
    }
    created
}

fn load_chunks_around(manager: &mut ChunkManager, center: IVec2, radius: i32) -> (shown: Vec<IVec2>)
    requires
        old(manager).wf(),
        reaches(center, radius as int),
    ensures
        final(manager).wf(),
        final(manager).same_sizes(old(manager)),
        follows(old(manager).chunks(), final(manager).chunks()),
        final(manager).same_counts(old(manager)),
        final(manager).chunks() == old(manager).chunks(),
        final(manager).visible() == loaded_around(
            old(manager).visible(),
            old(manager).chunks(),
            center,
            radius as int,
        ),
        shown@.no_duplicates(),
        forall|c: IVec2|
            shown@.contains(c) <==> !old(manager).visible().contains(c) && final(manager).visible().contains(c),
{
    let side: i64 = 2 * radius as i64 + 1;
    let mut shown: Vec<IVec2> = Vec::new();
    let mut row: i64 = 0;
    while row < side
        invariant
            reaches(center, radius as int),
            side == 2 * radius + 1,
            0 <= row <= side,
            manager.wf(),
            manager.same_sizes(old(manager)),
            manager.same_counts(old(manager)),
            manager.chunks() == old(manager).chunks(),
            manager.visible() == Set::new(
                |c: IVec2|
                    old(manager).visible().contains(c) || (covered(
                        center,
                        radius as int,
                        row as int,
                        0,
                        c,
                    ) && old(manager).in_state(c, ChunkState::ResourceGenerated)),
            ),
            shown@.no_duplicates(),
            forall|c: IVec2|
                shown@.contains(c) <==> !old(manager).visible().contains(c)
                    && manager.visible().contains(c),
        decreases side - row,
    {
        let mut col: i64 = 0;
        while col < side
            invariant
                reaches(center, radius as int),
                side == 2 * radius + 1,
                0 <= row < side,
                0 <= col <= side,
                manager.wf(),
                manager.same_sizes(old(manager)),
                manager.same_counts(old(manager)),
                manager.chunks() == old(manager).chunks(),
                manager.visible() == Set::new(
                    |c: IVec2|
                        old(manager).visible().contains(c) || (covered(
                            center,
                            radius as int,
                            row as int,
                            col as int,
                            c,
                        ) && old(manager).in_state(c, ChunkState::ResourceGenerated)),
                ),
                shown@.no_duplicates(),
                forall|c: IVec2|
                    shown@.contains(c) <==> !old(manager).visible().contains(c)
                        && manager.visible().contains(c),
            decreases side - col,
        {
            let x: i64 = center.x as i64 - radius as i64 + col;
            let y: i64 = center.y as i64 - radius as i64 + row;
            let coord = IVec2 { x: x as i32, y: y as i32 };
            proof {
                assert forall|c: IVec2|
                    covered(center, radius as int, row as int, col + 1, c) <==> (c == coord
                        || covered(center, radius as int, row as int, col as int, c)) by {}
                lemma_push_contains(shown@, coord);
            }
            if !manager.loaded(&coord) {
                let ready = match manager.state(&coord) {
                    Some(state) => state == ChunkState::ResourceGenerated,
                    None => false,
                };
                if ready {
                    manager.load(coord);
                    proof {
                        lemma_push_no_duplicates(shown@, coord);
                    }
                    shown.push(coord);
                }
            }
            col = col + 1;
        }
        proof {
            assert forall|c: IVec2|
                covered(center, radius as int, row as int, side as int, c) <==> covered(
                    center,
                    radius as int,
                    row + 1,
                    0,
                    c,
                ) by {}
        }
        row = row + 1;
    }
    proof {
        assert forall|c: IVec2|
            covered(center, radius as int, side as int, 0, c) <==> center.chebyshev(c)
                <= radius by {}
    }
    shown
}

fn unload_chunks_outside(manager: &mut ChunkManager, center: IVec2, radius: i32) -> (hidden: Vec<
    IVec2,
>)
    requires
        old(manager).wf(),
    ensures
        final(manager).wf(),
        final(manager).same_sizes(old(manager)),
        follows(old(manager).chunks(), final(manager).chunks()),
        final(manager).same_counts(old(manager)),
        final(manager).chunks() == old(manager).chunks(),
        final(manager).visible() == unloaded_outside(old(manager).visible(), center, radius as int),
        hidden@.no_duplicates(),
        forall|c: IVec2|
            hidden@.contains(c) <==> old(manager).visible().contains(c) && !final(manager).visible().contains(c),
{
    let hidden = manager.out_range(&center, radius);
    let mut i: usize = 0;
    while i < hidden.len()
        invariant
            0 <= i <= hidden@.len(),
            manager.wf(),
            manager.same_sizes(old(manager)),
            manager.same_counts(old(manager)),
            manager.chunks() == old(manager).chunks(),
            manager.visible() == Set::new(
                |c: IVec2|
                    old(manager).visible().contains(c) && !hidden@.take(i as int).contains(c),
            ),
        decreases hidden@.len() - i,
    {
        proof {
            lemma_take_next(hidden@, i as int);
            lemma_push_contains(hidden@.take(i as int), hidden@[i as int]);
        }
        manager.unload(hidden[i]);
        i = i + 1;
    }
    proof {
        assert(hidden@.take(hidden@.len() as int) =~= hidden@);
    }
    hidden
}

/// Whether the controller can work around a viewer at `camera_pos`: chunks
/// and tiles have sides longer than zero, and every coordinate within
/// `radius` of the viewer's chunk is a chunk coordinate.
pub fn can_stream(manager: &ChunkManager, camera_pos: &IVec2, radius: i32) -> (b: bool)
    ensures
        b == (sized(manager) && reaches(camera_chunk(manager, *camera_pos), radius as int)),
{
    let size = manager.size();
    let tile_size = manager.tile_size();
    if !(size.x > 0 && size.y > 0 && tile_size.x > 0 && tile_size.y > 0) {
        return false;
    }
    let center = world_pos_to_chunk_coord(camera_pos, &size, &tile_size);
    let r: i64 = radius as i64;
    let x: i64 = center.x as i64;
    let y: i64 = center.y as i64;
    r >= 0 && x - r >= i32::MIN as i64 && x + r <= i32::MAX as i64 && y - r >= i32::MIN as i64 && y
        + r <= i32::MAX as i64
}

/// Enter every chunk within `radius` chunks of the viewer into the registry.
/// The result lists the coordinates that were new.
pub fn spawn_chunks_around_camera(manager: &mut ChunkManager, camera_pos: &IVec2, radius: i32) -> (created:
    Vec<IVec2>)
    requires
        old(manager).wf(),
        sized(old(manager)),
        reaches(camera_chunk(old(manager), *camera_pos), radius as int),
    ensures
        final(manager).wf(),
        final(manager).same_sizes(old(manager)),
        follows(old(manager).chunks(), final(manager).chunks()),
        final(manager).same_counts(old(manager)),
        final(manager).visible() == old(manager).visible(),
        final(manager).chunks() == spawned_around(
            old(manager).chunks(),
            camera_chunk(old(manager), *camera_pos),
            radius as int,
        ),
        created@.no_duplicates(),
        forall|c: IVec2|
            created@.contains(c) <==> !old(manager).chunks().contains_key(c) && camera_chunk(
                old(manager),
                *camera_pos,
            ).chebyshev(c) <= radius,
{
    let center = world_pos_to_chunk_coord(camera_pos, &manager.size(), &manager.tile_size());
    spawn_chunks_around(manager, center, radius)
}

/// Show every chunk within `radius` chunks of the viewer whose resources are
/// installed. The result lists the coordinates that were hidden before.
pub fn load_chunks_around_camera(manager: &mut ChunkManager, camera_pos: &IVec2, radius: i32) -> (shown:
    Vec<IVec2>)
    requires
        old(manager).wf(),
        sized(old(manager)),
        reaches(camera_chunk(old(manager), *camera_pos), radius as int),
    ensures
        final(manager).wf(),
        final(manager).same_sizes(old(manager)),
        follows(old(manager).chunks(), final(manager).chunks()),
        final(manager).same_counts(old(manager)),
        final(manager).chunks() == old(manager).chunks(),
        final(manager).visible() == loaded_around(
            old(manager).visible(),
            old(manager).chunks(),
            camera_chunk(old(manager), *camera_pos),
            radius as int,
        ),
        shown@.no_duplicates(),
        forall|c: IVec2|
            shown@.contains(c) <==> !old(manager).visible().contains(c) && final(manager).visible().contains(c),
{
    let center = world_pos_to_chunk_coord(camera_pos, &manager.size(), &manager.tile_size());
    load_chunks_around(manager, center, radius)
}

/// Hide every visible chunk that lies farther than `radius` chunks from the
/// viewer. The result lists the coordinates that were hidden.
pub fn unload_chunks_outside_camera(manager: &mut ChunkManager, camera_pos: &IVec2, radius: i32) -> (hidden:
    Vec<IVec2>)
    requires
        old(manager).wf(),
        sized(old(manager)),
    ensures
        final(manager).wf(),
        final(manager).same_sizes(old(manager)),
        follows(old(manager).chunks(), final(manager).chunks()),
        final(manager).same_counts(old(manager)),
        final(manager).chunks() == old(manager).chunks(),
        final(manager).visible() == unloaded_outside(
            old(manager).visible(),
            camera_chunk(old(manager), *camera_pos),
            radius as int,
        ),
        hidden@.no_duplicates(),
        forall|c: IVec2|
            hidden@.contains(c) <==> old(manager).visible().contains(c) && !final(manager).visible().contains(c),
{
    let center = world_pos_to_chunk_coord(camera_pos, &manager.size(), &manager.tile_size());
    unload_chunks_outside(manager, center, radius)
}

/// What one tick of the streaming controller changed.
pub struct StreamingUpdate {
    /// The coordinates that were entered into the registry.
    pub created: Vec<IVec2>,
    /// The chunks that were shown.
    pub shown: Vec<IVec2>,
    /// The chunks that were hidden.
    pub hidden: Vec<IVec2>,
}

/// One tick of the streaming controller for a viewer at `camera_pos`: enter
/// the chunks within `spawn_radius`, show the generated ones within
/// `load_radius`, and hide the visible ones beyond `load_radius`.
///
/// After the tick every coordinate within `spawn_radius` of the viewer's
/// chunk is in the registry, and every visible chunk lies within
/// `load_radius` of it.
pub fn stream_chunks_around_camera(
    manager: &mut ChunkManager,
    camera_pos: &IVec2,
    spawn_radius: i32,
    load_radius: i32,
) -> (update: StreamingUpdate)
    requires
        old(manager).wf(),
        sized(old(manager)),
        reaches(camera_chunk(old(manager), *camera_pos), spawn_radius as int),
        reaches(camera_chunk(old(manager), *camera_pos), load_radius as int),
    ensures
        final(manager).wf(),
        final(manager).same_sizes(old(manager)),
        follows(old(manager).chunks(), final(manager).chunks()),
        final(manager).same_counts(old(manager)),
        final(manager).chunks() == spawned_around(
            old(manager).chunks(),
            camera_chunk(old(manager), *camera_pos),
            spawn_radius as int,
        ),
        final(manager).visible() == unloaded_outside(
            loaded_around(
                old(manager).visible(),
                final(manager).chunks(),
                camera_chunk(old(manager), *camera_pos),
                load_radius as int,
            ),
            camera_chunk(old(manager), *camera_pos),
            load_radius as int,
        ),
        forall|c: IVec2|
            camera_chunk(old(manager), *camera_pos).chebyshev(c) <= spawn_radius ==> final(manager).chunks().contains_key(c),
        forall|c: IVec2|
            final(manager).visible().contains(c) ==> camera_chunk(
                old(manager),
                *camera_pos,
            ).chebyshev(c) <= load_radius,
        forall|c: IVec2| old(manager).chunks().contains_key(c) ==> final(manager).chunks()[c] == old(manager).chunks()[c],
{
    let center = world_pos_to_chunk_coord(camera_pos, &manager.size(), &manager.tile_size());
    let created = spawn_chunks_around(manager, center, spawn_radius);
    let shown = load_chunks_around(manager, center, load_radius);
    let hidden = unload_chunks_outside(manager, center, load_radius);
    StreamingUpdate { created, shown, hidden }
}

} // verus!
