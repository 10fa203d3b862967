//! Terrain genesis: a chunk's voxel layer from the surface height of its columns.
use vstd::prelude::*;
use crate::voxel::{IVec3, Kind, AXIS_SIZE};
use crate::chunk::{index_spec, voxel_at, voxel_at_spec, ChunkKind, ChunkStorage, BUFFER_SIZE};

verus! {

/// Number of voxel columns of a chunk: one per `(x, z)` pair.
pub const COLUMN_COUNT: usize = 256;

/// Kind of the voxels that terrain fills.
pub const SOLID: u16 = 1;

/// Number of solid voxels, counted from the bottom of the chunk at chunk height `cy`, of a
/// column whose terrain surface lies at world height `h`: `h - cy * AXIS_SIZE`, clamped to
/// `[0, AXIS_SIZE]`.
pub open spec fn column_fill(cy: int, h: int) -> int {
    let local = h - cy * AXIS_SIZE;
    if local <= 0 {
        0
    } else if local >= AXIS_SIZE {
        AXIS_SIZE as int
    } else {
        local
    }
}

/// The voxel layer of the chunk at `c`, given the surface height of each of its columns:
/// the voxels below the column's fill are solid, the rest empty. Column `(x, z)` is
/// `heights[x * AXIS_SIZE + z]`.
pub open spec fn terrain_spec(c: IVec3, heights: Seq<i32>) -> Seq<Kind> {
    Seq::new(
        BUFFER_SIZE as nat,
        |i: int|
            {
                let v = voxel_at_spec(i);
                if v.y < column_fill(c.y as int, heights[v.x * 16 + v.z] as int) {
                    Kind(SOLID)
                } else {
                    Kind(0)
                }
            },
    )
}

fn column_fill_exec(cy: i32, h: i32) -> (r: i32)
    ensures
        r == column_fill(cy as int, h as int),
{
    let local: i64 = h as i64 - cy as i64 * 16;
    if local <= 0 {
        0
    } else if local >= 16 {
        16
    } else {
        local as i32
    }
}

/// Builds the voxel layer of the chunk at `local` from the world height of the terrain
/// surface over each of its columns. The layer depends on these two inputs alone.
pub fn terrain(local: IVec3, heights: &Vec<i32>) -> (r: ChunkKind)
    requires
        heights@.len() == COLUMN_COUNT,
    ensures
        r.wf(),
        r@ == terrain_spec(local, heights@),
{
    let mut data: Vec<Kind> = Vec::new();
    let mut i: usize = 0;
    while i < BUFFER_SIZE
        invariant
            i <= BUFFER_SIZE,
            heights@.len() == COLUMN_COUNT,
            data@.len() == i,
            forall|j: int| 0 <= j < i ==> #[trigger] data@[j] == terrain_spec(local, heights@)[j],
        decreases BUFFER_SIZE - i,
    {
        let v = voxel_at(i);
        let column = (v.x as usize) * 16 + (v.z as usize);
        let fill = column_fill_exec(local.y, heights[column]);
        if v.y < fill {
            data.push(Kind(SOLID));
        } else {
            data.push(Kind(0));
        }
        i += 1;
    }
    assert(data@ =~= terrain_spec(local, heights@));
    ChunkStorage::from_vec(data)
}

/// Generating the same chunk twice from the same column heights gives the same layer,
/// voxel for voxel.
pub proof fn lemma_terrain_deterministic(
    c: IVec3,
    heights: Seq<i32>,
    first: Seq<Kind>,
    second: Seq<Kind>,
)
    requires
        first == terrain_spec(c, heights),
        second == terrain_spec(c, heights),
    ensures
        first.len() == BUFFER_SIZE,
        forall|v: IVec3| v.is_local() ==> first[#[trigger] index_spec(v)] == second[index_spec(v)],
{
}

} // verus!
