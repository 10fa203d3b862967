//! Dense per-voxel layers of a chunk, voxel indexing and chunk boundaries.
use vstd::prelude::*;
use crate::voxel::{IVec3, Kind, Side, AXIS_SIZE};
use crate::occlusion::FacesOcclusion;

verus! {

/// Number of voxels in a chunk: `AXIS_SIZE` cubed.
pub const BUFFER_SIZE: usize = 4096;

/// Position of a local voxel in a chunk's dense layer.
pub open spec fn index_spec(v: IVec3) -> int {
    v.x * 256 + v.y * 16 + v.z
}

/// Dense index of a local voxel: `x * AXIS_SIZE² + y * AXIS_SIZE + z`.
pub fn to_index(v: IVec3) -> (r: usize)
    requires
        v.is_local(),
    ensures
        r == index_spec(v),
        r < BUFFER_SIZE,
{
    (v.x as usize) * 256 + (v.y as usize) * 16 + (v.z as usize)
}

/// Local voxel stored at dense index `i`.
pub open spec fn voxel_at_spec(i: int) -> IVec3 {
    IVec3 { x: (i / 256) as i32, y: ((i / 16) % 16) as i32, z: (i % 16) as i32 }
}

pub proof fn lemma_index_round_trip(i: int)
    requires
        0 <= i < BUFFER_SIZE,
    ensures
        voxel_at_spec(i).is_local(),
        index_spec(voxel_at_spec(i)) == i,
{
    assert(0 <= i / 256 < 16);
    assert(i / 256 * 256 + ((i / 16) % 16) * 16 + i % 16 == i) by (nonlinear_arith)
        requires
            0 <= i < 4096,
    ;
}

/// Local voxel at dense index `i`; the inverse of `to_index`.
pub fn voxel_at(i: usize) -> (r: IVec3)
    requires
        i < BUFFER_SIZE,
    ensures
        r == voxel_at_spec(i as int),
        r.is_local(),
        index_spec(r) == i,
{
    proof {
        lemma_index_round_trip(i as int);
    }
    IVec3 { x: (i / 256) as i32, y: ((i / 16) % 16) as i32, z: (i % 16) as i32 }
}

/// A local voxel is on the chunk's boundary when any component is `0` or `AXIS_SIZE - 1`.
pub open spec fn at_bounds(v: IVec3) -> bool {
    v.x == 0 || v.x == AXIS_SIZE - 1 || v.y == 0 || v.y == AXIS_SIZE - 1 || v.z == 0 || v.z
        == AXIS_SIZE - 1
}

pub fn is_at_bounds(v: IVec3) -> (r: bool)
    ensures
        r == at_bounds(v),
{
    v.x == 0 || v.x == 15 || v.y == 0 || v.y == 15 || v.z == 0 || v.z == 15
}

/// Outward direction on one axis: `-1` at the low face, `1` at the high face, else `0`.
pub open spec fn boundary_component(c: i32) -> i32 {
    if c == 0 {
        -1i32
    } else if c == AXIS_SIZE - 1 {
        1
    } else {
        0
    }
}

pub open spec fn boundary_dir_spec(v: IVec3) -> IVec3 {
    IVec3 { x: boundary_component(v.x), y: boundary_component(v.y), z: boundary_component(v.z) }
}

fn boundary_component_exec(c: i32) -> (r: i32)
    ensures
        r == boundary_component(c),
{
    if c == 0 {
        -1
    } else if c == 15 {
        1
    } else {
        0
    }
}

/// Per axis, the outward direction of the boundary faces that the voxel lies on.
pub fn get_boundary_dir(v: IVec3) -> (r: IVec3)
    ensures
        r == boundary_dir_spec(v),
{
    IVec3 {
        x: boundary_component_exec(v.x),
        y: boundary_component_exec(v.y),
        z: boundary_component_exec(v.z),
    }
}

/// `u` is one of the axis-aligned unit vectors that make up `d`.
pub open spec fn is_unit_part(d: IVec3, u: IVec3) -> bool {
    ||| d.x != 0 && u == IVec3 { x: d.x, y: 0, z: 0 }
    ||| d.y != 0 && u == IVec3 { x: 0, y: d.y, z: 0 }
    ||| d.z != 0 && u == IVec3 { x: 0, y: 0, z: d.z }
}

/// Splits a direction whose components are in `{-1, 0, 1}` into its axis-aligned unit
/// vectors, one per non-zero component.
pub fn to_unit_dir(d: IVec3) -> (r: Vec<IVec3>)
    requires
        -1 <= d.x <= 1,
        -1 <= d.y <= 1,
        -1 <= d.z <= 1,
    ensures
        forall|u: IVec3| r@.contains(u) <==> is_unit_part(d, u),
        forall|i: int| 0 <= i < r@.len() ==> (#[trigger] r@[i]).is_unit_dir(),
        r@.no_duplicates(),
{
    let mut r: Vec<IVec3> = Vec::new();
    if d.x != 0 {
        r.push(IVec3 { x: d.x, y: 0, z: 0 });
    }
    if d.y != 0 {
        r.push(IVec3 { x: 0, y: d.y, z: 0 });
    }
    if d.z != 0 {
        r.push(IVec3 { x: 0, y: 0, z: d.z });
    }
    proof {
        assert forall|u: IVec3| r@.contains(u) <==> is_unit_part(d, u) by {
            if is_unit_part(d, u) {
                if d.x != 0 && u == (IVec3 { x: d.x, y: 0, z: 0 }) {
                    assert(r@[0] == u);
                } else if d.y != 0 && u == (IVec3 { x: 0, y: d.y, z: 0 }) {
                    assert(r@[if d.x != 0 { 1int } else { 0int }] == u);
                } else {
                    assert(r@[r@.len() - 1] == u);
                }
            }
        }
    }
    r
}

/// A dense layer of per-voxel values, one for each of the `BUFFER_SIZE` voxels of a chunk.
pub struct ChunkStorage<T> {
    data: Vec<T>,
}

impl<T> View for ChunkStorage<T> {
    type V = Seq<T>;

    closed spec fn view(&self) -> Seq<T> {
        self.data@
    }
}

impl<T: Copy> ChunkStorage<T> {
    /// The layer always covers the whole chunk.
    pub open spec fn wf(&self) -> bool {
        self@.len() == BUFFER_SIZE
    }

    /// A layer whose every voxel holds `value`.
    pub fn new(value: T) -> (r: Self)
        ensures
            r.wf(),
            forall|i: int| 0 <= i < BUFFER_SIZE ==> #[trigger] r@[i] == value,
    {
        let mut data: Vec<T> = Vec::new();
        let mut i: usize = 0;
        while i < BUFFER_SIZE
            invariant
                i <= BUFFER_SIZE,
                data@.len() == i,
                forall|j: int| 0 <= j < i ==> #[trigger] data@[j] == value,
            decreases BUFFER_SIZE - i,
        {
            data.push(value);
            i += 1;
        }
        ChunkStorage { data }
    }

    /// Builds a layer from a dense sequence of exactly `BUFFER_SIZE` values.
    pub fn from_vec(data: Vec<T>) -> (r: Self)
        requires
            data@.len() == BUFFER_SIZE,
        ensures
            r.wf(),
            r@ == data@,
    {
        ChunkStorage { data }
    }

    pub fn get(&self, v: IVec3) -> (r: T)
        requires
            self.wf(),
            v.is_local(),
        ensures
            r == self@[index_spec(v)],
    {
        self.data[to_index(v)]
    }

    pub fn get_at(&self, i: usize) -> (r: T)
        requires
            self.wf(),
            i < BUFFER_SIZE,
        ensures
            r == self@[i as int],
    {
        self.data[i]
    }

    pub fn set(&mut self, v: IVec3, value: T)
        requires
            old(self).wf(),
            v.is_local(),
        ensures
            final(self).wf(),
            final(self)@ == old(self)@.update(index_spec(v), value),
    {
        let i = to_index(v);
        self.data.set(i, value);
    }

    pub fn set_at(&mut self, i: usize, value: T)
        requires
            old(self).wf(),
            i < BUFFER_SIZE,
        ensures
            final(self).wf(),
            final(self)@ == old(self)@.update(i as int, value),
    {
        self.data.set(i, value);
    }

    /// The values of the layer, in dense index order.
    pub fn as_slice(&self) -> (r: &[T])
        ensures
            r@ == self@,
    {
        self.data.as_slice()
    }
}

/// The voxel kinds of a chunk.
pub type ChunkKind = ChunkStorage<Kind>;

/// A resident chunk: its voxel kinds and the face occlusion of each voxel.
pub struct Chunk {
    pub kind: ChunkKind,
    pub occlusion: ChunkStorage<FacesOcclusion>,
}

impl Chunk {
    pub open spec fn wf(&self) -> bool {
        self.kind.wf() && self.occlusion.wf()
    }

    /// A chunk with the given kinds and no occluded face.
    pub fn new(kind: ChunkKind) -> (r: Chunk)
        requires
            kind.wf(),
        ensures
            r.wf(),
            r.kind@ == kind@,
            forall|i: int, s: Side| 0 <= i < BUFFER_SIZE ==> !#[trigger] r.occlusion@[i].occluded(s),
    {
        Chunk { kind, occlusion: ChunkStorage::new(FacesOcclusion::new()) }
    }
}

} // verus!
