use vox::chunk::{to_index, ChunkStorage};
use vox::genesis::{load_chunk, unload_chunk, update_chunk, update_voxel, DirtySet};
use vox::voxel::{IVec3, Kind, Side};
use vox::world::VoxWorld;

fn sorted(d: &DirtySet) -> Vec<(i32, i32, i32)> {
    let mut v: Vec<(i32, i32, i32)> = d.to_vec().iter().map(|c| (c.x, c.y, c.z)).collect();
    v.sort();
    v
}

fn expected(list: &[(i32, i32, i32)]) -> Vec<(i32, i32, i32)> {
    let mut v = list.to_vec();
    v.sort();
    v
}

fn world_with(c: IVec3) -> VoxWorld {
    let mut world = VoxWorld::new();
    load_chunk(&mut world, c, ChunkStorage::new(Kind(0)));
    world
}

#[test]
fn load_chunk_dirties_itself_and_six_neighbors() {
    let mut world = VoxWorld::new();
    let c = IVec3::new(2, -3, 4);
    let dirty = load_chunk(&mut world, c, ChunkStorage::new(Kind(1)));
    assert_eq!(dirty.len(), 7);
    assert_eq!(
        sorted(&dirty),
        expected(&[(2, -3, 4), (3, -3, 4), (1, -3, 4), (2, -2, 4), (2, -4, 4), (2, -3, 5), (2, -3, 3)])
    );
    assert!(world.contains(c));
    assert_eq!(world.get(c).unwrap().kind.get(IVec3::new(3, 3, 3)), Kind(1));
}

#[test]
fn load_chunk_replaces_resident_chunk() {
    let c = IVec3::new(0, 0, 0);
    let mut world = world_with(c);
    load_chunk(&mut world, c, ChunkStorage::new(Kind(9)));
    assert_eq!(world.get(c).unwrap().kind.get(IVec3::new(0, 0, 0)), Kind(9));
}

#[test]
fn unload_absent_chunk_is_empty_no_op() {
    let mut world = world_with(IVec3::new(1, 1, 1));
    let dirty = unload_chunk(&mut world, IVec3::new(5, 5, 5));
    assert_eq!(dirty.len(), 0);
    assert!(world.contains(IVec3::new(1, 1, 1)));
}

#[test]
fn unload_resident_chunk_dirties_neighbors_only() {
    let c = IVec3::new(0, 0, 0);
    let mut world = world_with(c);
    let dirty = unload_chunk(&mut world, c);
    assert_eq!(
        sorted(&dirty),
        expected(&[(1, 0, 0), (-1, 0, 0), (0, 1, 0), (0, -1, 0), (0, 0, 1), (0, 0, -1)])
    );
    assert!(!world.contains(c));
    assert!(world.get(c).is_none());
}

#[test]
fn edit_on_low_x_face_dirties_negative_x_neighbor() {
    let c = IVec3::new(3, 3, 3);
    let mut world = world_with(c);
    let dirty = update_voxel(&mut world, c, &vec![(IVec3::new(0, 5, 6), Kind(2))]);
    assert_eq!(sorted(&dirty), expected(&[(3, 3, 3), (2, 3, 3)]));
    assert_eq!(world.get(c).unwrap().kind.get(IVec3::new(0, 5, 6)), Kind(2));
}

#[test]
fn interior_edit_dirties_only_the_chunk() {
    let c = IVec3::new(-1, 0, 7);
    let mut world = world_with(c);
    let dirty = update_voxel(&mut world, c, &vec![(IVec3::new(4, 5, 6), Kind(2))]);
    assert_eq!(sorted(&dirty), expected(&[(-1, 0, 7)]));
}

#[test]
fn corner_edit_dirties_three_neighbors() {
    let c = IVec3::new(0, 0, 0);
    let mut world = world_with(c);
    let edits = vec![(IVec3::new(15, 0, 15), Kind(1)), (IVec3::new(15, 0, 15), Kind(3))];
    let dirty = update_voxel(&mut world, c, &edits);
    assert_eq!(sorted(&dirty), expected(&[(0, 0, 0), (1, 0, 0), (0, -1, 0), (0, 0, 1)]));
    assert_eq!(world.get(c).unwrap().kind.get(IVec3::new(15, 0, 15)), Kind(3));
}

#[test]
fn edit_of_absent_chunk_is_dropped() {
    let mut world = world_with(IVec3::new(0, 0, 0));
    let dirty = update_voxel(&mut world, IVec3::new(9, 9, 9), &vec![(IVec3::new(0, 0, 0), Kind(1))]);
    assert_eq!(dirty.len(), 0);
    assert!(!world.contains(IVec3::new(9, 9, 9)));
}

#[test]
fn empty_edit_list_still_dirties_resident_chunk() {
    let c = IVec3::new(0, 0, 0);
    let mut world = world_with(c);
    let dirty = update_voxel(&mut world, c, &vec![]);
    assert_eq!(sorted(&dirty), expected(&[(0, 0, 0)]));
}

#[test]
fn update_chunk_recomputes_occlusion() {
    let a = IVec3::new(0, 0, 0);
    let b = IVec3::new(1, 0, 0);
    let mut world = VoxWorld::new();
    load_chunk(&mut world, a, ChunkStorage::new(Kind(0)));
    load_chunk(&mut world, b, ChunkStorage::new(Kind(0)));
    update_voxel(&mut world, a, &vec![(IVec3::new(15, 4, 4), Kind(1)), (IVec3::new(14, 4, 4), Kind(1))]);
    update_voxel(&mut world, b, &vec![(IVec3::new(0, 4, 4), Kind(1))]);
    assert!(update_chunk(&mut world, a));

    let chunk = world.get(a).unwrap();
    let edge = chunk.occlusion.get(IVec3::new(15, 4, 4));
    assert!(edge.is_occluded(Side::Right));
    assert!(edge.is_occluded(Side::Left));
    assert!(!edge.is_occluded(Side::Up));
    assert!(!edge.is_fully_occluded());
    let inner = chunk.occlusion.get(IVec3::new(14, 4, 4));
    assert!(inner.is_occluded(Side::Right));
    assert!(!inner.is_occluded(Side::Left));

    let other = world.get(b).unwrap().occlusion.get(IVec3::new(0, 4, 4));
    assert!(other.is_occluded(Side::Left));
    assert!(!other.is_occluded(Side::Right));

    // The far side of a boundary with no resident chunk is treated as empty.
    let low = world.get(a).unwrap().occlusion.get(IVec3::new(0, 4, 4));
    assert!(!low.is_occluded(Side::Left));
}

#[test]
fn update_chunk_of_absent_chunk_returns_false() {
    let mut world = VoxWorld::new();
    assert!(!update_chunk(&mut world, IVec3::new(0, 0, 0)));
}

#[test]
fn dense_index_layout() {
    assert_eq!(to_index(IVec3::new(0, 0, 0)), 0);
    assert_eq!(to_index(IVec3::new(1, 2, 3)), 256 + 32 + 3);
    assert_eq!(to_index(IVec3::new(15, 15, 15)), 4095);
}

#[test]
fn absent_coordinates_at_grid_edge_are_no_ops() {
    let mut world = world_with(IVec3::new(0, 0, 0));
    let edge = IVec3::new(i32::MAX, i32::MIN, 0);
    assert_eq!(unload_chunk(&mut world, edge).len(), 0);
    assert_eq!(update_voxel(&mut world, edge, &vec![(IVec3::new(0, 0, 0), Kind(1))]).len(), 0);
    assert!(!update_chunk(&mut world, edge));
    assert!(world.contains(IVec3::new(0, 0, 0)));
}

#[test]
fn loaded_chunk_starts_with_clear_occlusion() {
    let a = IVec3::new(0, 0, 0);
    let mut world = VoxWorld::new();
    load_chunk(&mut world, a, ChunkStorage::new(Kind(1)));
    load_chunk(&mut world, IVec3::new(1, 0, 0), ChunkStorage::new(Kind(1)));
    assert!(update_chunk(&mut world, a));
    assert!(world.get(a).unwrap().occlusion.get(IVec3::new(15, 4, 4)).is_occluded(Side::Right));
    load_chunk(&mut world, IVec3::new(0, 5, 0), ChunkStorage::new(Kind(1)));
    assert!(world.get(a).unwrap().occlusion.get(IVec3::new(15, 4, 4)).is_occluded(Side::Right));
    let fresh = world.get(IVec3::new(0, 5, 0)).unwrap().occlusion.get(IVec3::new(3, 3, 3));
    assert!(!fresh.is_occluded(Side::Up));
}
