//! Coordinates: chunk and voxel vectors, voxel kinds, the six sides, and the
//! transforms between world space and chunk-local space.
use vstd::prelude::*;

verus! {

/// Edge length of a cubic chunk, in voxels.
pub const AXIS_SIZE: usize = 16;

/// Number of cardinal sides of a voxel.
pub const SIDE_COUNT: usize = 6;

/// An integer 3-vector: a chunk coordinate or a voxel coordinate inside a chunk.
#[derive(Clone, Copy, Debug, PartialEq, Eq, Structural, Hash)]
pub struct IVec3 {
    pub x: i32,
    pub y: i32,
    pub z: i32,
}

/// A position in world space, in whole voxels.
#[derive(Clone, Copy, Debug, PartialEq, Eq, Structural, Hash)]
pub struct WorldVoxel {
    pub x: i64,
    pub y: i64,
    pub z: i64,
}

impl IVec3 {
    pub fn new(x: i32, y: i32, z: i32) -> (r: IVec3)
        ensures
            r.x == x,
            r.y == y,
            r.z == z,
    {
        IVec3 { x, y, z }
    }

    /// True when every component is a valid voxel index inside a chunk.
    pub open spec fn is_local(self) -> bool {
        0 <= self.x < AXIS_SIZE && 0 <= self.y < AXIS_SIZE && 0 <= self.z < AXIS_SIZE
    }

    /// True when `self + d` is representable for every unit direction `d`.
    pub open spec fn has_neighbors(self) -> bool {
        i32::MIN < self.x < i32::MAX && i32::MIN < self.y < i32::MAX && i32::MIN < self.z
            < i32::MAX
    }

    /// True when every chunk within two steps along an axis is representable.
    pub open spec fn has_neighborhood(self) -> bool {
        i32::MIN + 1 < self.x < i32::MAX - 1 && i32::MIN + 1 < self.y < i32::MAX - 1 && i32::MIN
            + 1 < self.z < i32::MAX - 1
    }

    pub open spec fn offset_spec(self, dx: int, dy: int, dz: int) -> IVec3 {
        IVec3 { x: (self.x + dx) as i32, y: (self.y + dy) as i32, z: (self.z + dz) as i32 }
    }

    /// Component-wise sum with a unit direction.
    pub fn offset(&self, d: IVec3) -> (r: IVec3)
        requires
            self.has_neighbors(),
            d.is_unit_dir(),
        ensures
            r == self.offset_spec(d.x as int, d.y as int, d.z as int),
    {
        IVec3 { x: self.x + d.x, y: self.y + d.y, z: self.z + d.z }
    }

    /// A vector with exactly one component equal to 1 or -1 and the others 0.
    pub open spec fn is_unit_dir(self) -> bool {
        ||| (self.x == 1 || self.x == -1) && self.y == 0 && self.z == 0
        ||| self.x == 0 && (self.y == 1 || self.y == -1) && self.z == 0
        ||| self.x == 0 && self.y == 0 && (self.z == 1 || self.z == -1)
    }
}

/// Material of a voxel; `0` is empty.
#[derive(Clone, Copy, Debug, PartialEq, Eq, Structural, Hash)]
pub struct Kind(pub u16);

impl Kind {
    pub fn is_empty(&self) -> (r: bool)
        ensures
            r == (self.0 == 0),
    {
        self.0 == 0
    }
}

impl From<u16> for Kind {
    fn from(v: u16) -> (r: Kind)
        ensures
            r == Kind(v),
    {
        Kind(v)
    }
}

impl vstd::std_specs::convert::FromSpecImpl<u16> for Kind {
    open spec fn obeys_from_spec() -> bool {
        true
    }

    open spec fn from_spec(v: u16) -> Kind {
        Kind(v)
    }
}

/// The six cardinal sides of a voxel, in their fixed order.
#[derive(Clone, Copy, Debug, PartialEq, Eq, Structural, Hash)]
pub enum Side {
    Right,
    Left,
    Up,
    Down,
    Front,
    Back,
}

impl Side {
    /// Position of the side in the fixed order Right, Left, Up, Down, Front, Back.
    pub open spec fn index_spec(self) -> nat {
        match self {
            Side::Right => 0,
            Side::Left => 1,
            Side::Up => 2,
            Side::Down => 3,
            Side::Front => 4,
            Side::Back => 5,
        }
    }

    pub open spec fn dir_spec(self) -> IVec3 {
        match self {
            Side::Right => IVec3 { x: 1, y: 0, z: 0 },
            Side::Left => IVec3 { x: -1i32, y: 0, z: 0 },
            Side::Up => IVec3 { x: 0, y: 1, z: 0 },
            Side::Down => IVec3 { x: 0, y: -1i32, z: 0 },
            Side::Front => IVec3 { x: 0, y: 0, z: 1 },
            Side::Back => IVec3 { x: 0, y: 0, z: -1i32 },
        }
    }

    pub open spec fn from_index_spec(i: nat) -> Side {
        if i == 0 {
            Side::Right
        } else if i == 1 {
            Side::Left
        } else if i == 2 {
            Side::Up
        } else if i == 3 {
            Side::Down
        } else if i == 4 {
            Side::Front
        } else {
            Side::Back
        }
    }

    pub fn index(&self) -> (r: usize)
        ensures
            r == self.index_spec(),
            r < SIDE_COUNT,
    {
        match self {
            Side::Right => 0,
            Side::Left => 1,
            Side::Up => 2,
            Side::Down => 3,
            Side::Front => 4,
            Side::Back => 5,
        }
    }

    pub fn from_index(i: usize) -> (r: Side)
        requires
            i < SIDE_COUNT,
        ensures
            r == Side::from_index_spec(i as nat),
            r.index_spec() == i,
    {
        if i == 0 {
            Side::Right
        } else if i == 1 {
            Side::Left
        } else if i == 2 {
            Side::Up
        } else if i == 3 {
            Side::Down
        } else if i == 4 {
            Side::Front
        } else {
            Side::Back
        }
    }

    /// Unit direction pointing out of the voxel through this side.
    pub fn dir(&self) -> (r: IVec3)
        ensures
            r == self.dir_spec(),
            r.is_unit_dir(),
    {
        match self {
            Side::Right => IVec3 { x: 1, y: 0, z: 0 },
            Side::Left => IVec3 { x: -1, y: 0, z: 0 },
            Side::Up => IVec3 { x: 0, y: 1, z: 0 },
            Side::Down => IVec3 { x: 0, y: -1, z: 0 },
            Side::Front => IVec3 { x: 0, y: 0, z: 1 },
            Side::Back => IVec3 { x: 0, y: 0, z: -1 },
        }
    }
}

/// One face of a voxel: its four corners and the side it faces.
#[derive(Clone, Copy, Debug, PartialEq, Eq, Hash)]
pub struct VoxelFace {
    pub vertices: [IVec3; 4],
    pub side: Side,
}

/// Euclidean remainder of `a` by the chunk edge: always in `[0, AXIS_SIZE)`.
pub open spec fn local_of(a: int) -> int {
    a % (AXIS_SIZE as int)
}

fn euclid_rem(a: i64) -> (r: i32)
    ensures
        r == local_of(a as int),
        0 <= r < AXIS_SIZE,
{
    let m: i64 = a % 16;
    let r: i64 = if m < 0 {
        m + 16
    } else {
        m
    };
    r as i32
}

/// Local voxel coordinate of a world voxel position: the Euclidean remainder of each
/// component by the chunk edge, whatever the sign of the input.
pub fn to_local(world: WorldVoxel) -> (r: IVec3)
    ensures
        r.x == local_of(world.x as int),
        r.y == local_of(world.y as int),
        r.z == local_of(world.z as int),
        r.is_local(),
{
    IVec3 { x: euclid_rem(world.x), y: euclid_rem(world.y), z: euclid_rem(world.z) }
}

pub open spec fn world_of(local: int, chunk: int) -> int {
    chunk * (AXIS_SIZE as int) + local
}

/// World position of voxel `local` of the chunk at `chunk`: `chunk * AXIS_SIZE + local`.
pub fn to_world(local: IVec3, chunk: IVec3) -> (r: WorldVoxel)
    ensures
        r.x == world_of(local.x as int, chunk.x as int),
        r.y == world_of(local.y as int, chunk.y as int),
        r.z == world_of(local.z as int, chunk.z as int),
{
    WorldVoxel {
        x: chunk.x as i64 * 16 + local.x as i64,
        y: chunk.y as i64 * 16 + local.y as i64,
        z: chunk.z as i64 * 16 + local.z as i64,
    }
}

proof fn lemma_local_of_world(v: int, c: int)
    requires
        0 <= v < AXIS_SIZE,
    ensures
        local_of(world_of(v, c)) == v,
{
    assert((c * 16 + v) % 16 == v) by (nonlinear_arith)
        requires
            0 <= v < 16,
    ;
}

/// Converting a local voxel to world space and back gives the same local voxel,
/// for every chunk coordinate.
pub proof fn lemma_to_local_to_world(v: IVec3, c: IVec3)
    requires
        v.is_local(),
    ensures
        local_of(world_of(v.x as int, c.x as int)) == v.x,
        local_of(world_of(v.y as int, c.y as int)) == v.y,
        local_of(world_of(v.z as int, c.z as int)) == v.z,
{
    lemma_local_of_world(v.x as int, c.x as int);
    lemma_local_of_world(v.y as int, c.y as int);
    lemma_local_of_world(v.z as int, c.z as int);
}

} // verus!
