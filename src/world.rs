//! The sparse store of resident chunks and the occlusion data derived from it.
use vstd::prelude::*;
use crate::voxel::{local_of, IVec3, Kind, Side, SIDE_COUNT};
use crate::occlusion::FacesOcclusion;
use crate::chunk::{index_spec, voxel_at, voxel_at_spec, Chunk, ChunkStorage, BUFFER_SIZE};

verus! {

/// The sparse store of resident chunks: at most one chunk per chunk coordinate.
///
/// Keys and chunks are held in two parallel `Vec`s with unique keys rather than a
/// `HashMap<IVec3, Chunk>`: vstd models hash maps only for keys whose `Hash` and `Eq` it
/// knows, and a derived impl on `IVec3` is not among them.
pub struct VoxWorld {
    keys: Vec<IVec3>,
    chunks: Vec<Chunk>,
}

impl View for VoxWorld {
    type V = Map<IVec3, Seq<Kind>>;

    /// Voxel kinds of each resident chunk, by chunk coordinate.
    closed spec fn view(&self) -> Map<IVec3, Seq<Kind>> {
        Map::new(|k: IVec3| self.keys@.contains(k), |k: IVec3| self.chunks@[self.find(k)].kind@)
    }
}

impl VoxWorld {
    /// Keys are unique, one chunk per key, and every chunk covers its whole volume.
    pub closed spec fn wf(&self) -> bool {
        &&& self.keys@.len() == self.chunks@.len()
        &&& self.keys@.no_duplicates()
        &&& forall|i: int| 0 <= i < self.chunks@.len() ==> (#[trigger] self.chunks@[i]).wf()
    }

    spec fn find(&self, k: IVec3) -> int {
        choose|i: int| 0 <= i < self.keys@.len() && self.keys@[i] == k
    }

    /// Face occlusion of each resident chunk, by chunk coordinate.
    pub closed spec fn occlusions(&self) -> Map<IVec3, Seq<FacesOcclusion>> {
        Map::new(
            |k: IVec3| self.keys@.contains(k),
            |k: IVec3| self.chunks@[self.find(k)].occlusion@,
        )
    }

    proof fn lemma_find(&self, i: int)
        requires
            self.wf(),
            0 <= i < self.keys@.len(),
        ensures
            self.find(self.keys@[i]) == i,
            self.keys@.contains(self.keys@[i]),
            self@[self.keys@[i]] == self.chunks@[i].kind@,
            self.occlusions()[self.keys@[i]] == self.chunks@[i].occlusion@,
    {
        let k = self.keys@[i];
        assert(self.keys@[i] == k);
        let j = self.find(k);
        assert(0 <= j < self.keys@.len() && self.keys@[j] == k);
    }

    /// Both layers of every resident chunk cover the chunk, and the occlusion map has an
    /// entry exactly where a chunk is resident.
    pub proof fn lemma_views(&self)
        requires
            self.wf(),
        ensures
            self@.dom() == self.occlusions().dom(),
            forall|k: IVec3| #[trigger] self@.contains_key(k) ==> self@[k].len() == 4096 && self.occlusions()[k].len() == 4096,
    {
        assert(self@.dom() =~= self.occlusions().dom());
        assert forall|k: IVec3| #[trigger] self@.contains_key(k) implies self@[k].len() == 4096 && self.occlusions()[k].len() == 4096 by {
            let i = choose|i: int| 0 <= i < self.keys@.len() && self.keys@[i] == k;
            self.lemma_find(i);
        }
    }

    /// An empty world.
    pub fn new() -> (r: VoxWorld)
        ensures
            r.wf(),
            r@ == Map::<IVec3, Seq<Kind>>::empty(),
            r.occlusions() == Map::<IVec3, Seq<FacesOcclusion>>::empty(),
    {
        let r = VoxWorld { keys: Vec::new(), chunks: Vec::new() };
        assert(r@ =~= Map::<IVec3, Seq<Kind>>::empty());
        assert(r.occlusions() =~= Map::<IVec3, Seq<FacesOcclusion>>::empty());
        r
    }

    fn index_of(&self, c: IVec3) -> (r: Option<usize>)
        requires
            self.wf(),
        ensures
            r is Some <==> self.keys@.contains(c),
            r is Some ==> r->0 < self.keys@.len() && self.keys@[r->0 as int] == c,
    {
        let mut i: usize = 0;
        while i < self.keys.len()
            invariant
                i <= self.keys@.len(),
                forall|j: int| 0 <= j < i ==> self.keys@[j] != c,
            decreases self.keys@.len() - i,
        {
            if self.keys[i] == c {
                return Some(i);
            }
            i += 1;
        }
        None
    }

    /// Whether a chunk is resident at `c`.
    pub fn contains(&self, c: IVec3) -> (r: bool)
        requires
            self.wf(),
        ensures
            r == self@.contains_key(c),
    {
        self.index_of(c).is_some()
    }

    /// The chunk resident at `c`, if any.
    pub fn get(&self, c: IVec3) -> (r: Option<&Chunk>)
        requires
            self.wf(),
        ensures
            r is Some <==> self@.contains_key(c),
            r is Some ==> r->0.wf() && r->0.kind@ == self@[c] && r->0.occlusion@
                == self.occlusions()[c],
    {
        match self.index_of(c) {
            Some(i) => {
                proof {
                    self.lemma_find(i as int);
                }
                Some(&self.chunks[i])
            },
            None => None,
        }
    }

    /// Inserts `chunk` at `c`, replacing any chunk already there.
    pub fn add(&mut self, c: IVec3, chunk: Chunk)
        requires
            old(self).wf(),
            chunk.wf(),
        ensures
            final(self).wf(),
            final(self)@ == old(self)@.insert(c, chunk.kind@),
            final(self).occlusions() == old(self).occlusions().insert(c, chunk.occlusion@),
    {
        let ghost old_self = *self;
        let ghost ck = chunk.kind@;
        let ghost co = chunk.occlusion@;
        match self.index_of(c) {
            Some(i) => {
                self.chunks.set(i, chunk);
                proof {
                    assert forall|k: IVec3| #[trigger] self.keys@.contains(k) implies self@[k]
                        == old_self@.insert(c, ck)[k] && self.occlusions()[k]
                        == old_self.occlusions().insert(c, co)[k] by {
                        let j = choose|j: int| 0 <= j < self.keys@.len() && self.keys@[j] == k;
                        self.lemma_find(j);
                        old_self.lemma_find(j);
                    }
                    assert(self@ =~= old_self@.insert(c, ck));
                    assert(self.occlusions() =~= old_self.occlusions().insert(c, co));
                }
            },
            None => {
                self.keys.push(c);
                self.chunks.push(chunk);
                proof {
                    assert forall|k: IVec3| #[trigger] self.keys@.contains(k) implies self@[k]
                        == old_self@.insert(c, ck)[k] && self.occlusions()[k]
                        == old_self.occlusions().insert(c, co)[k] by {
                        let j = choose|j: int| 0 <= j < self.keys@.len() && self.keys@[j] == k;
                        self.lemma_find(j);
                        if j < old_self.keys@.len() {
                            old_self.lemma_find(j);
                        }
                    }
                    assert forall|k: IVec3| #[trigger] self.keys@.contains(k) <==> old_self.keys@.contains(k) || k == c by {
                        if old_self.keys@.contains(k) {
                            let j = choose|j: int| 0 <= j < old_self.keys@.len() && old_self.keys@[j] == k;
                            assert(self.keys@[j] == k);
                        }
                        if k == c {
                            assert(self.keys@[self.keys@.len() - 1] == c);
                        }
                    }
                    assert(self@ =~= old_self@.insert(c, ck));
                    assert(self.occlusions() =~= old_self.occlusions().insert(c, co));
                }
            },
        }
    }

    /// Removes and returns the chunk at `c`, if one is resident.
    pub fn remove(&mut self, c: IVec3) -> (r: Option<Chunk>)
        requires
            old(self).wf(),
        ensures
            final(self).wf(),
            r is Some <==> old(self)@.contains_key(c),
            r is Some ==> r->0.kind@ == old(self)@[c],
            r is None ==> *final(self) == *old(self),
            final(self)@ == old(self)@.remove(c),
            final(self).occlusions() == old(self).occlusions().remove(c),
    {
        let ghost old_self = *self;
        match self.index_of(c) {
            Some(i) => {
                proof {
                    old_self.lemma_find(i as int);
                }
                self.keys.remove(i);
                let chunk = self.chunks.remove(i);
                proof {
                    assert(self.keys@ == old_self.keys@.remove(i as int));
                    assert forall|k: IVec3| #[trigger] self.keys@.contains(k) <==> old_self.keys@.contains(k) && k != c by {
                        if old_self.keys@.contains(k) && k != c {
                            let j = choose|j: int| 0 <= j < old_self.keys@.len() && old_self.keys@[j] == k;
                            if j < i {
                                assert(self.keys@[j] == k);
                            } else {
                                assert(self.keys@[j - 1] == k);
                            }
                        }
                        if self.keys@.contains(k) {
                            let j = choose|j: int| 0 <= j < self.keys@.len() && self.keys@[j] == k;
                            if j < i {
                                assert(old_self.keys@[j] == k);
                            } else {
                                assert(old_self.keys@[j + 1] == k);
                            }
                        }
                    }
                    assert forall|k: IVec3| #[trigger] self.keys@.contains(k) implies self@[k]
                        == old_self@[k] && self.occlusions()[k] == old_self.occlusions()[k] by {
                        let j = choose|j: int| 0 <= j < self.keys@.len() && self.keys@[j] == k;
                        self.lemma_find(j);
                        if j < i {
                            old_self.lemma_find(j);
                        } else {
                            old_self.lemma_find(j + 1);
                        }
                    }
                    assert(self@ =~= old_self@.remove(c));
                    assert(self.occlusions() =~= old_self.occlusions().remove(c));
                }
                Some(chunk)
            },
            None => {
                assert(self@ =~= old_self@.remove(c));
                assert(self.occlusions() =~= old_self.occlusions().remove(c));
                None
            },
        }
    }

    /// Writes `kind` at local voxel `v` of the chunk at `c`; returns whether a chunk was
    /// resident there. Nothing changes when none was.
    pub fn set_voxel(&mut self, c: IVec3, v: IVec3, kind: Kind) -> (r: bool)
        requires
            old(self).wf(),
            v.is_local(),
        ensures
            final(self).wf(),
            r == old(self)@.contains_key(c),
            r ==> final(self)@ == old(self)@.insert(c, old(self)@[c].update(index_spec(v), kind)),
            !r ==> *final(self) == *old(self),
            final(self).occlusions() == old(self).occlusions(),
    {
        let ghost old_self = *self;
        match self.index_of(c) {
            Some(i) => {
                proof {
                    old_self.lemma_find(i as int);
                }
                self.chunks[i].kind.set(v, kind);
                proof {
                    let nk = old_self@[c].update(index_spec(v), kind);
                    assert forall|k: IVec3| #[trigger] self.keys@.contains(k) implies self@[k]
                        == old_self@.insert(c, nk)[k] && self.occlusions()[k]
                        == old_self.occlusions()[k] by {
                        let j = choose|j: int| 0 <= j < self.keys@.len() && self.keys@[j] == k;
                        self.lemma_find(j);
                        old_self.lemma_find(j);
                    }
                    assert(self@ =~= old_self@.insert(c, nk));
                    assert(self.occlusions() =~= old_self.occlusions());
                }
                true
            },
            None => false,
        }
    }

    /// Replaces the occlusion layer of the chunk at `c`, if one is resident.
    fn set_occlusion(&mut self, c: IVec3, layer: ChunkStorage<FacesOcclusion>)
        requires
            old(self).wf(),
            layer.wf(),
        ensures
            final(self).wf(),
            final(self)@ == old(self)@,
            old(self)@.contains_key(c) ==> final(self).occlusions() == old(self).occlusions().insert(
                c,
                layer@,
            ),
            !old(self)@.contains_key(c) ==> final(self).occlusions() == old(self).occlusions(),
    {
        let ghost old_self = *self;
        let ghost lv = layer@;
        match self.index_of(c) {
            Some(i) => {
                proof {
                    old_self.lemma_find(i as int);
                }
                self.chunks[i].occlusion = layer;
                proof {
                    assert forall|k: IVec3| #[trigger] self.keys@.contains(k) implies self@[k]
                        == old_self@[k] && self.occlusions()[k] == old_self.occlusions().insert(
                        c,
                        lv,
                    )[k] by {
                        let j = choose|j: int| 0 <= j < self.keys@.len() && self.keys@[j] == k;
                        self.lemma_find(j);
                        old_self.lemma_find(j);
                    }
                    assert(self@ =~= old_self@);
                    assert(self.occlusions() =~= old_self.occlusions().insert(c, lv));
                }
            },
            None => {},
        }
    }

    /// Face occlusion of every voxel of the chunk at `c`, from the kinds of this world.
    pub fn compute_occlusion(&self, c: IVec3) -> (r: ChunkStorage<FacesOcclusion>)
        requires
            self.wf(),
            self@.contains_key(c),
            c.has_neighbors(),
        ensures
            r.wf(),
            occlusion_correct(self@, c, r@),
    {
        let chunk = self.get(c).unwrap();
        proof {
            self.lemma_views();
        }
        let mut layer = ChunkStorage::new(FacesOcclusion::new());
        let mut sidx: usize = 0;
        while sidx < SIDE_COUNT
            invariant
                sidx <= SIDE_COUNT,
                self.wf(),
                self@.contains_key(c),
                c.has_neighbors(),
                chunk.wf(),
                chunk.kind@ == self@[c],
                layer.wf(),
                forall|j: int| 0 <= j < BUFFER_SIZE ==> (#[trigger] layer@[j]).wf(),
                forall|j: int, s: Side|
                    0 <= j < BUFFER_SIZE ==> #[trigger] layer@[j].occluded(s) == (s.index_spec()
                        < sidx && solid_at(self@, c, voxel_at_spec(j), s)),
            decreases SIDE_COUNT - sidx,
        {
            let side = Side::from_index(sidx);
            let d = side.dir();
            let neighbor = self.get(c.offset(d));
            let mut i: usize = 0;
            while i < BUFFER_SIZE
                invariant
                    sidx < SIDE_COUNT,
                    i <= BUFFER_SIZE,
                    side == Side::from_index_spec(sidx as nat),
                    side.index_spec() == sidx,
                    d == side.dir_spec(),
                    self.wf(),
                    self@.contains_key(c),
                    c.has_neighbors(),
                    chunk.wf(),
                    chunk.kind@ == self@[c],
                    neighbor is Some <==> self@.contains_key(c.offset_spec(d.x as int, d.y as int, d.z as int)),
                    neighbor is Some ==> neighbor->0.wf() && neighbor->0.kind@ == self@[c.offset_spec(d.x as int, d.y as int, d.z as int)],
                    layer.wf(),
                    forall|j: int| 0 <= j < BUFFER_SIZE ==> (#[trigger] layer@[j]).wf(),
                    forall|j: int, s: Side|
                        0 <= j < BUFFER_SIZE ==> #[trigger] layer@[j].occluded(s) == ((s.index_spec()
                            < sidx || (s.index_spec() == sidx && j < i)) && solid_at(
                            self@,
                            c,
                            voxel_at_spec(j),
                            s,
                        )),
                decreases BUFFER_SIZE - i,
            {
                let v = voxel_at(i);
                let solid = neighbor_solid(chunk, neighbor, v, d);
                proof {
                    assert(solid == solid_at(self@, c, v, side));
                }
                let mut f = layer.get_at(i);
                f.set(side, solid);
                let ghost before = layer@;
                layer.set_at(i, f);
                proof {
                    assert forall|j: int, s: Side|
                        0 <= j < BUFFER_SIZE implies #[trigger] layer@[j].occluded(s) == ((s.index_spec()
                            < sidx || (s.index_spec() == sidx && j < i + 1)) && solid_at(
                            self@,
                            c,
                            voxel_at_spec(j),
                            s,
                        )) by {
                        if j != i {
                            assert(layer@[j] == before[j]);
                        } else if s != side {
                            assert(s.index_spec() != sidx);
                            assert(before[j].occluded(s) == layer@[j].occluded(s));
                        }
                    }
                }
                i += 1;
            }
            sidx += 1;
        }
        proof {
            assert forall|j: int, s: Side| 0 <= j < BUFFER_SIZE implies #[trigger] layer@[j].occluded(s)
                == solid_at(self@, c, voxel_at_spec(j), s) by {
                assert(s.index_spec() < SIDE_COUNT);
            }
        }
        layer
    }

    /// Recomputes the face occlusion of the chunk at `c` and of each of its six
    /// face-adjacent neighbors, for those that are resident; the rest is unchanged.
    pub fn update_neighborhood(&mut self, c: IVec3)
        requires
            old(self).wf(),
            c.has_neighborhood(),
        ensures
            final(self).wf(),
            final(self)@ == old(self)@,
            final(self).occlusions().dom() == old(self).occlusions().dom(),
            forall|k: IVec3| #[trigger] final(self).occlusions().contains_key(k) ==> if k == c
                || face_neighbors_of(c).contains(k) {
                occlusion_correct(final(self)@, k, final(self).occlusions()[k])
            } else {
                final(self).occlusions()[k] == old(self).occlusions()[k]
            },
    {
        let ghost old_self = *self;
        let ghost todo = face_neighbors_of(c).insert(c);
        let mut i: usize = 0;
        while i <= SIDE_COUNT
            invariant
                i <= SIDE_COUNT + 1,
                c.has_neighborhood(),
                todo == face_neighbors_of(c).insert(c),
                self.wf(),
                self@ == old_self@,
                self.occlusions().dom() == old_self.occlusions().dom(),
                forall|k: IVec3| #[trigger] self.occlusions().contains_key(k) ==> if todo.contains(k) && target_done(c, k, i as int) {
                    occlusion_correct(self@, k, self.occlusions()[k])
                } else {
                    self.occlusions()[k] == old_self.occlusions()[k]
                },
            decreases SIDE_COUNT + 1 - i,
        {
            let target = if i < SIDE_COUNT {
                c.offset(Side::from_index(i).dir())
            } else {
                c
            };
            proof {
                assert(target == target_of(c, i as int));
            }
            let ghost before = *self;
            if self.contains(target) {
                let layer = self.compute_occlusion(target);
                self.set_occlusion(target, layer);
            }
            proof {
                assert forall|k: IVec3| #[trigger] self.occlusions().contains_key(k) implies if todo.contains(k)
                    && target_done(c, k, i + 1) {
                    occlusion_correct(self@, k, self.occlusions()[k])
                } else {
                    self.occlusions()[k] == old_self.occlusions()[k]
                } by {
                    assert(before.occlusions().contains_key(k));
                    if k == target {
                        assert(target_of(c, i as int) == k);
                        assert(target_done(c, k, i + 1));
                        if i == 0 {
                            assert(k == c.offset_spec(1, 0, 0));
                        } else if i == 1 {
                            assert(k == c.offset_spec(-1, 0, 0));
                        } else if i == 2 {
                            assert(k == c.offset_spec(0, 1, 0));
                        } else if i == 3 {
                            assert(k == c.offset_spec(0, -1, 0));
                        } else if i == 4 {
                            assert(k == c.offset_spec(0, 0, 1));
                        } else if i == 5 {
                            assert(k == c.offset_spec(0, 0, -1));
                        }
                        assert(todo.contains(k));
                    } else if target_done(c, k, i + 1) {
                        let j = choose|j: int| 0 <= j < i + 1 && #[trigger] target_of(c, j) == k;
                        assert(j != i);
                        assert(target_done(c, k, i as int));
                    }
                }
            }
            i += 1;
        }
        proof {
            assert forall|k: IVec3| todo.contains(k) implies #[trigger] target_done(c, k, SIDE_COUNT + 1) by {
                if k == c {
                    assert(target_of(c, 6) == k);
                } else if k == c.offset_spec(1, 0, 0) {
                    assert(target_of(c, 0) == k);
                } else if k == c.offset_spec(-1, 0, 0) {
                    assert(target_of(c, 1) == k);
                } else if k == c.offset_spec(0, 1, 0) {
                    assert(target_of(c, 2) == k);
                } else if k == c.offset_spec(0, -1, 0) {
                    assert(target_of(c, 3) == k);
                } else if k == c.offset_spec(0, 0, 1) {
                    assert(target_of(c, 4) == k);
                } else {
                    assert(target_of(c, 5) == k);
                }
            }
        }
    }
}

/// The neighbors of `c` across its six faces.
pub open spec fn face_neighbors_of(c: IVec3) -> Set<IVec3> {
    set![
        c.offset_spec(1, 0, 0),
        c.offset_spec(-1, 0, 0),
        c.offset_spec(0, 1, 0),
        c.offset_spec(0, -1, 0),
        c.offset_spec(0, 0, 1),
        c.offset_spec(0, 0, -1),
    ]
}

/// Whether the voxel next to local voxel `v` of chunk `c`, across `side`, is solid. Across
/// the chunk boundary it lies in the neighbor chunk, and counts as empty when that chunk is
/// not resident.
pub open spec fn solid_at(kinds: Map<IVec3, Seq<Kind>>, c: IVec3, v: IVec3, side: Side) -> bool {
    let d = side.dir_spec();
    let n = IVec3 { x: (v.x + d.x) as i32, y: (v.y + d.y) as i32, z: (v.z + d.z) as i32 };
    if n.is_local() {
        kinds[c][index_spec(n)].0 != 0
    } else {
        let nc = c.offset_spec(d.x as int, d.y as int, d.z as int);
        let w = IVec3 {
            x: local_of(n.x as int) as i32,
            y: local_of(n.y as int) as i32,
            z: local_of(n.z as int) as i32,
        };
        kinds.contains_key(nc) && kinds[nc][index_spec(w)].0 != 0
    }
}

/// Each voxel of `layer` records, side by side, whether the neighboring voxel is solid.
pub open spec fn occlusion_correct(
    kinds: Map<IVec3, Seq<Kind>>,
    c: IVec3,
    layer: Seq<FacesOcclusion>,
) -> bool {
    &&& layer.len() == BUFFER_SIZE
    &&& forall|j: int, s: Side|
        0 <= j < BUFFER_SIZE ==> #[trigger] layer[j].occluded(s) == solid_at(
            kinds,
            c,
            voxel_at_spec(j),
            s,
        )
}

fn wrap(a: i32) -> (r: i32)
    requires
        -1 <= a <= 16,
    ensures
        r == local_of(a as int),
{
    if a < 0 {
        a + 16
    } else if a >= 16 {
        a - 16
    } else {
        a
    }
}

fn neighbor_solid(chunk: &Chunk, neighbor: Option<&Chunk>, v: IVec3, d: IVec3) -> (r: bool)
    requires
        chunk.wf(),
        v.is_local(),
        d.is_unit_dir(),
        neighbor is Some ==> neighbor->0.wf(),
    ensures
        ({
            let n = IVec3 { x: (v.x + d.x) as i32, y: (v.y + d.y) as i32, z: (v.z + d.z) as i32 };
            let w = IVec3 {
                x: local_of(n.x as int) as i32,
                y: local_of(n.y as int) as i32,
                z: local_of(n.z as int) as i32,
            };
            r == if n.is_local() {
                chunk.kind@[index_spec(n)].0 != 0
            } else {
                neighbor is Some && neighbor->0.kind@[index_spec(w)].0 != 0
            }
        }),
{
    let n = IVec3 { x: v.x + d.x, y: v.y + d.y, z: v.z + d.z };
    if 0 <= n.x && n.x < 16 && 0 <= n.y && n.y < 16 && 0 <= n.z && n.z < 16 {
        chunk.kind.get(n).0 != 0
    } else {
        match neighbor {
            Some(nb) => {
                let w = IVec3 { x: wrap(n.x), y: wrap(n.y), z: wrap(n.z) };
                nb.kind.get(w).0 != 0
            },
            None => false,
        }
    }
}

/// The chunk handled at step `i` of a neighborhood update: the six neighbors, then `c`.
spec fn target_of(c: IVec3, i: int) -> IVec3 {
    if i < SIDE_COUNT {
        let d = Side::from_index_spec(i as nat).dir_spec();
        c.offset_spec(d.x as int, d.y as int, d.z as int)
    } else {
        c
    }
}

/// The chunk `k` was handled before step `i`.
spec fn target_done(c: IVec3, k: IVec3, i: int) -> bool {
    exists|j: int| 0 <= j < i && #[trigger] target_of(c, j) == k
}

} // verus!
