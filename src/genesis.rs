//! Genesis commands: load, unload, edit and refresh chunks, each returning the set of
//! chunk coordinates that must be reprocessed downstream.
//!
//! The cache keeps only the terrain as it was generated: edits live in the world and are
//! dropped when their chunk is unloaded. Loading a chunk that is already resident
//! replaces it; callers that must not lose edits check `VoxWorld::contains` first.
use vstd::prelude::*;
use crate::voxel::{IVec3, Kind, Side};
use crate::chunk::{
    at_bounds, boundary_dir_spec, get_boundary_dir, index_spec, is_at_bounds, is_unit_part,
    to_unit_dir, Chunk, ChunkKind, BUFFER_SIZE,
};
use crate::world::{face_neighbors_of, occlusion_correct, VoxWorld};

verus! {

/// A set of chunk coordinates that must be reprocessed downstream.
///
/// Held as a `Vec` without duplicates: vstd specifies `HashSet` for keys whose `Hash` and
/// `Eq` it models, such as integers, and a derived impl on `IVec3` is not among them, so a
/// `HashSet<IVec3>` would leave its contents unstated.
pub struct DirtySet {
    items: Vec<IVec3>,
}

impl View for DirtySet {
    type V = Set<IVec3>;

    closed spec fn view(&self) -> Set<IVec3> {
        self.items@.to_set()
    }
}

impl DirtySet {
    /// Each coordinate is held once.
    pub closed spec fn wf(&self) -> bool {
        self.items@.no_duplicates()
    }

    pub fn new() -> (r: DirtySet)
        ensures
            r.wf(),
            r@ == Set::<IVec3>::empty(),
    {
        let r = DirtySet { items: Vec::new() };
        assert(r@ =~= Set::<IVec3>::empty());
        r
    }

    pub fn contains(&self, c: IVec3) -> (r: bool)
        ensures
            r == self@.contains(c),
    {
        let mut i: usize = 0;
        while i < self.items.len()
            invariant
                i <= self.items@.len(),
                forall|j: int| 0 <= j < i ==> self.items@[j] != c,
            decreases self.items@.len() - i,
        {
            if self.items[i] == c {
                assert(self.items@.contains(c));
                return true;
            }
            i += 1;
        }
        false
    }

    pub fn insert(&mut self, c: IVec3)
        requires
            old(self).wf(),
        ensures
            final(self).wf(),
            final(self)@ == old(self)@.insert(c),
    {
        let ghost old_items = self.items@;
        if !self.contains(c) {
            self.items.push(c);
            proof {
                assert forall|x: IVec3| #[trigger] self.items@.contains(x) <==> old_items.contains(x) || x == c by {
                    if old_items.contains(x) {
                        let j = choose|j: int| 0 <= j < old_items.len() && old_items[j] == x;
                        assert(self.items@[j] == x);
                    }
                    if x == c {
                        assert(self.items@[self.items@.len() - 1] == c);
                    }
                }
            }
        }
        assert(self@ =~= old(self)@.insert(c));
    }

    /// Number of coordinates in the set.
    pub fn len(&self) -> (r: usize)
        requires
            self.wf(),
        ensures
            r == self@.len(),
    {
        proof {
            self.items@.unique_seq_to_set();
        }
        self.items.len()
    }

    /// The coordinates, each once, in no particular order.
    pub fn to_vec(&self) -> (r: Vec<IVec3>)
        requires
            self.wf(),
        ensures
            r@.to_set() == self@,
            r@.no_duplicates(),
    {
        self.items.clone()
    }
}

/// `n` is a chunk next to `c` across a boundary face that voxel `v` touches.
pub open spec fn boundary_neighbor(c: IVec3, v: IVec3, n: IVec3) -> bool {
    at_bounds(v) && exists|u: IVec3|
        #[trigger] is_unit_part(boundary_dir_spec(v), u) && n == c.offset_spec(
            u.x as int,
            u.y as int,
            u.z as int,
        )
}

/// Chunks made stale by applying `edits` to the resident chunk at `c`: `c` itself, and
/// for each edited voxel on the boundary every neighbor across a face it touches.
pub open spec fn edit_dirty(c: IVec3, edits: Seq<(IVec3, Kind)>) -> Set<IVec3> {
    Set::new(
        |n: IVec3|
            n == c || exists|i: int|
                0 <= i < edits.len() && #[trigger] boundary_neighbor(c, edits[i].0, n),
    )
}

/// The voxel layer after writing each edit in order.
pub open spec fn apply_edits(kinds: Seq<Kind>, edits: Seq<(IVec3, Kind)>) -> Seq<Kind>
    decreases edits.len(),
{
    if edits.len() == 0 {
        kinds
    } else {
        let last = edits.last();
        apply_edits(kinds, edits.drop_last()).update(index_spec(last.0), last.1)
    }
}

/// Writes each edit into the chunk at `c`, in order, and returns the chunks made stale.
/// When no chunk is resident at `c` the edits are dropped and the set is empty.
pub fn update_voxel(world: &mut VoxWorld, local: IVec3, voxels: &Vec<(IVec3, Kind)>) -> (r:
    DirtySet)
    requires
        old(world).wf(),
        old(world)@.contains_key(local) ==> local.has_neighbors(),
        forall|i: int| 0 <= i < voxels@.len() ==> (#[trigger] voxels@[i]).0.is_local(),
    ensures
        final(world).wf(),
        r.wf(),
        final(world).occlusions() == old(world).occlusions(),
        old(world)@.contains_key(local) ==> final(world)@ == old(world)@.insert(
            local,
            apply_edits(old(world)@[local], voxels@),
        ) && r@ == edit_dirty(local, voxels@),
        !old(world)@.contains_key(local) ==> *final(world) == *old(world) && r@ == Set::<
            IVec3,
        >::empty(),
{
    let mut dirty_chunks = DirtySet::new();
    if !world.contains(local) {
        return dirty_chunks;
    }
    let ghost w0 = *world;
    let mut i: usize = 0;
    while i < voxels.len()
        invariant
            0 <= i <= voxels@.len(),
            local.has_neighbors(),
            forall|j: int| 0 <= j < voxels@.len() ==> (#[trigger] voxels@[j]).0.is_local(),
            w0@.contains_key(local),
            world.wf(),
            dirty_chunks.wf(),
            world.occlusions() == w0.occlusions(),
            world@ == w0@.insert(local, apply_edits(w0@[local], voxels@.subrange(0, i as int))),
            dirty_chunks@.insert(local) == edit_dirty(local, voxels@.subrange(0, i as int)),
        decreases voxels@.len() - i,
    {
        let (voxel, kind) = voxels[i];
        let ghost pre = dirty_chunks@;
        world.set_voxel(local, voxel, kind);
        if is_at_bounds(voxel) {
            let neighbor_dir = get_boundary_dir(voxel);
            let units = to_unit_dir(neighbor_dir);
            let mut k: usize = 0;
            while k < units.len()
                invariant
                    0 <= k <= units@.len(),
                    local.has_neighbors(),
                    dirty_chunks.wf(),
                    neighbor_dir == boundary_dir_spec(voxel),
                    forall|u: IVec3| units@.contains(u) <==> is_unit_part(neighbor_dir, u),
                    forall|j: int| 0 <= j < units@.len() ==> (#[trigger] units@[j]).is_unit_dir(),
                    dirty_chunks@ == pre.union(
                        Set::new(
                            |n: IVec3|
                                exists|j: int|
                                    0 <= j < k && n == #[trigger] local.offset_spec(
                                        units@[j].x as int,
                                        units@[j].y as int,
                                        units@[j].z as int,
                                    ),
                        ),
                    ),
                decreases units@.len() - k,
            {
                let neighbor = local.offset(units[k]);
                dirty_chunks.insert(neighbor);
                k += 1;
                assert(dirty_chunks@ =~= pre.union(
                    Set::new(
                        |n: IVec3|
                            exists|j: int|
                                0 <= j < k && n == #[trigger] local.offset_spec(
                                    units@[j].x as int,
                                    units@[j].y as int,
                                    units@[j].z as int,
                                ),
                    ),
                ));
            }
            proof {
                let nb = Set::new(
                    |n: IVec3|
                        exists|j: int|
                            0 <= j < k && n == #[trigger] local.offset_spec(
                                units@[j].x as int,
                                units@[j].y as int,
                                units@[j].z as int,
                            ),
                );
                assert forall|n: IVec3| nb.contains(n) <==> boundary_neighbor(local, voxel, n) by {
                    if nb.contains(n) {
                        let j = choose|j: int|
                            0 <= j < k && n == #[trigger] local.offset_spec(
                                units@[j].x as int,
                                units@[j].y as int,
                                units@[j].z as int,
                            );
                        assert(units@.contains(units@[j]));
                        assert(is_unit_part(boundary_dir_spec(voxel), units@[j]));
                    }
                    if boundary_neighbor(local, voxel, n) {
                        let u = choose|u: IVec3|
                            #[trigger] is_unit_part(boundary_dir_spec(voxel), u) && n
                                == local.offset_spec(u.x as int, u.y as int, u.z as int);
                        assert(units@.contains(u));
                        let j = choose|j: int| 0 <= j < units@.len() && units@[j] == u;
                        assert(n == local.offset_spec(
                            units@[j].x as int,
                            units@[j].y as int,
                            units@[j].z as int,
                        ));
                    }
                }
            }
        }
        proof {
            let e0 = voxels@.subrange(0, i as int);
            let e1 = voxels@.subrange(0, i + 1);
            assert(e1.drop_last() =~= e0);
            assert(e1.last() == (voxel, kind));
            assert forall|n: IVec3| #[trigger] dirty_chunks@.insert(local).contains(n) <==> edit_dirty(local, e1).contains(n) by {
                if exists|j: int| 0 <= j < e1.len() && #[trigger] boundary_neighbor(local, e1[j].0, n) {
                    let j = choose|j: int| 0 <= j < e1.len() && #[trigger] boundary_neighbor(local, e1[j].0, n);
                    if j < i {
                        assert(e0[j] == e1[j]);
                        assert(edit_dirty(local, e0).contains(n));
                    }
                }
                if edit_dirty(local, e0).contains(n) && n != local {
                    let j = choose|j: int| 0 <= j < e0.len() && #[trigger] boundary_neighbor(local, e0[j].0, n);
                    assert(e0[j] == e1[j]);
                }
            }
            assert(dirty_chunks@.insert(local) =~= edit_dirty(local, e1));
        }
        i += 1;
    }
    assert(voxels@.subrange(0, voxels@.len() as int) =~= voxels@);
    dirty_chunks.insert(local);
    dirty_chunks
}

/// Adds the six face-adjacent neighbors of `local` to `dirty`.
fn insert_neighbors(dirty: &mut DirtySet, local: IVec3)
    requires
        old(dirty).wf(),
        local.has_neighbors(),
    ensures
        final(dirty).wf(),
        final(dirty)@ == old(dirty)@.union(face_neighbors_of(local)),
{
    let ghost d0 = dirty@;
    dirty.insert(local.offset(Side::Right.dir()));
    dirty.insert(local.offset(Side::Left.dir()));
    dirty.insert(local.offset(Side::Up.dir()));
    dirty.insert(local.offset(Side::Down.dir()));
    dirty.insert(local.offset(Side::Front.dir()));
    dirty.insert(local.offset(Side::Back.dir()));
    assert(dirty@ =~= d0.union(face_neighbors_of(local)));
}

/// Removes the chunk at `local`. When one was resident the six face-adjacent neighbors
/// are returned as stale; when none was, nothing changes and the set is empty.
pub fn unload_chunk(world: &mut VoxWorld, local: IVec3) -> (r: DirtySet)
    requires
        old(world).wf(),
        old(world)@.contains_key(local) ==> local.has_neighbors(),
    ensures
        final(world).wf(),
        r.wf(),
        final(world)@ == old(world)@.remove(local),
        final(world).occlusions() == old(world).occlusions().remove(local),
        old(world)@.contains_key(local) ==> r@ == face_neighbors_of(local),
        !old(world)@.contains_key(local) ==> *final(world) == *old(world) && r@ == Set::<
            IVec3,
        >::empty(),
{
    let mut dirty_chunks = DirtySet::new();
    if world.remove(local).is_some() {
        insert_neighbors(&mut dirty_chunks, local);
        assert(dirty_chunks@ =~= face_neighbors_of(local));
    }
    dirty_chunks
}

/// Makes `kind` the resident chunk at `local`, replacing any chunk there, and returns
/// `local` and its six face-adjacent neighbors as stale.
pub fn load_chunk(world: &mut VoxWorld, local: IVec3, kind: ChunkKind) -> (r: DirtySet)
    requires
        old(world).wf(),
        local.has_neighbors(),
        kind.wf(),
    ensures
        final(world).wf(),
        r.wf(),
        final(world)@ == old(world)@.insert(local, kind@),
        final(world).occlusions().contains_key(local),
        final(world).occlusions().remove(local) == old(world).occlusions().remove(local),
        forall|i: int, s: Side|
            0 <= i < BUFFER_SIZE ==> !#[trigger] final(world).occlusions()[local][i].occluded(s),
        r@ == face_neighbors_of(local).insert(local),
        r@.len() == 7,
{
    let chunk = Chunk::new(kind);
    let ghost clear = chunk.occlusion@;
    let ghost before = world.occlusions();
    world.add(local, chunk);
    assert(world.occlusions().remove(local) =~= before.remove(local));
    assert(world.occlusions()[local] == clear);
    let mut dirty_chunks = DirtySet::new();
    insert_neighbors(&mut dirty_chunks, local);
    dirty_chunks.insert(local);
    proof {
        assert(dirty_chunks@ =~= face_neighbors_of(local).insert(local));
        lemma_load_dirty_count(local);
    }
    dirty_chunks
}

/// A loaded chunk and its six face-adjacent neighbors are seven distinct coordinates.
pub proof fn lemma_load_dirty_count(c: IVec3)
    requires
        c.has_neighbors(),
    ensures
        face_neighbors_of(c).insert(c).len() == 7,
{
    let s0 = Set::<IVec3>::empty();
    let s1 = s0.insert(c.offset_spec(1, 0, 0));
    let s2 = s1.insert(c.offset_spec(-1, 0, 0));
    let s3 = s2.insert(c.offset_spec(0, 1, 0));
    let s4 = s3.insert(c.offset_spec(0, -1, 0));
    let s5 = s4.insert(c.offset_spec(0, 0, 1));
    let s6 = s5.insert(c.offset_spec(0, 0, -1));
    let s7 = s6.insert(c);
    assert(s6 =~= face_neighbors_of(c));
    assert(!s0.contains(c.offset_spec(1, 0, 0)));
    assert(!s1.contains(c.offset_spec(-1, 0, 0)));
    assert(!s2.contains(c.offset_spec(0, 1, 0)));
    assert(!s3.contains(c.offset_spec(0, -1, 0)));
    assert(!s4.contains(c.offset_spec(0, 0, 1)));
    assert(!s5.contains(c.offset_spec(0, 0, -1)));
    assert(!s6.contains(c));
    assert(s7.len() == 7);
}

/// An edit on the low X face of a resident chunk marks both the chunk and its
/// neighbor in the negative X direction as stale.
pub proof fn lemma_low_x_face_edit(c: IVec3, v: IVec3, k: Kind)
    requires
        c.has_neighbors(),
        v.is_local(),
        v.x == 0,
    ensures
        edit_dirty(c, seq![(v, k)]).contains(c),
        edit_dirty(c, seq![(v, k)]).contains(c.offset_spec(-1, 0, 0)),
{
    let e = seq![(v, k)];
    let u = IVec3 { x: -1i32, y: 0, z: 0 };
    assert(is_unit_part(boundary_dir_spec(v), u));
    assert(boundary_neighbor(c, e[0].0, c.offset_spec(-1, 0, 0)));
}

/// An edit strictly inside a resident chunk marks only that chunk as stale.
pub proof fn lemma_interior_edit(c: IVec3, v: IVec3, k: Kind)
    requires
        v.is_local(),
        !at_bounds(v),
    ensures
        edit_dirty(c, seq![(v, k)]) == set![c],
{
    let e = seq![(v, k)];
    assert forall|n: IVec3| edit_dirty(c, e).contains(n) implies n == c by {
        if n != c {
            let i = choose|i: int| 0 <= i < e.len() && #[trigger] boundary_neighbor(c, e[i].0, n);
            assert(e[i].0 == v);
        }
    }
    assert(edit_dirty(c, e) =~= set![c]);
}

/// Recomputes the face occlusion of the chunk at `local` and of its resident neighbors;
/// returns whether a chunk was resident at `local`. Nothing changes when none was.
pub fn update_chunk(world: &mut VoxWorld, local: IVec3) -> (r: bool)
    requires
        old(world).wf(),
        old(world)@.contains_key(local) ==> local.has_neighborhood(),
    ensures
        final(world).wf(),
        r == old(world)@.contains_key(local),
        final(world)@ == old(world)@,
        final(world).occlusions().dom() == old(world).occlusions().dom(),
        !r ==> *final(world) == *old(world),
        r ==> forall|k: IVec3| #[trigger]
            final(world).occlusions().contains_key(k) ==> if k == local || face_neighbors_of(
                local,
            ).contains(k) {
                occlusion_correct(final(world)@, k, final(world).occlusions()[k])
            } else {
                final(world).occlusions()[k] == old(world).occlusions()[k]
            },
{
    if world.contains(local) {
        world.update_neighborhood(local);
        true
    } else {
        false
    }
}

} // verus!
