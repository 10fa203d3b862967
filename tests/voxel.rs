use vox::chunk::{ChunkKind, ChunkStorage};
use vox::occlusion::FacesOcclusion;
use vox::voxel::{IVec3, Kind, Side, WorldVoxel, AXIS_SIZE};

const SIDES: [Side; 6] = [Side::Right, Side::Left, Side::Up, Side::Down, Side::Front, Side::Back];

fn floor_world(x: f32, y: f32, z: f32) -> WorldVoxel {
    WorldVoxel { x: x.floor() as i64, y: y.floor() as i64, z: z.floor() as i64 }
}

/// A small deterministic generator standing in for random draws.
struct Lcg(u64);

impl Lcg {
    fn next(&mut self) -> u64 {
        self.0 = self.0.wrapping_mul(6364136223846793005).wrapping_add(1442695040888963407);
        self.0 >> 33
    }

    fn unit(&mut self) -> f32 {
        (self.next() % 1_000_000) as f32 / 1_000_000.0
    }

    fn sign(&mut self) -> i32 {
        if self.next() % 2 == 0 { -1 } else { 1 }
    }
}

#[test]
fn to_world() {
    const TEST_COUNT: usize = 1000;
    const MAG: f32 = 100.0;
    let mut rng = Lcg(7);

    for _ in 0..TEST_COUNT {
        let base_chunk = IVec3::new(
            (rng.unit() * MAG) as i32 * rng.sign(),
            (rng.unit() * MAG) as i32 * rng.sign(),
            (rng.unit() * MAG) as i32 * rng.sign(),
        );
        let base_voxel = IVec3::new(
            (rng.unit() * AXIS_SIZE as f32) as i32,
            (rng.unit() * AXIS_SIZE as f32) as i32,
            (rng.unit() * AXIS_SIZE as f32) as i32,
        );
        let world = vox::voxel::to_world(base_voxel, base_chunk);
        assert_eq!(
            WorldVoxel {
                x: base_chunk.x as i64 * AXIS_SIZE as i64 + base_voxel.x as i64,
                y: base_chunk.y as i64 * AXIS_SIZE as i64 + base_voxel.y as i64,
                z: base_chunk.z as i64 * AXIS_SIZE as i64 + base_voxel.z as i64,
            },
            world
        );
    }
}

#[test]
fn to_local() {
    assert_eq!(IVec3::new(0, 0, 0), vox::voxel::to_local(floor_world(0.0, 0.0, 0.0)));
    assert_eq!(IVec3::new(1, 0, 0), vox::voxel::to_local(floor_world(1.3, 0.0, 0.0)));
    assert_eq!(IVec3::new(15, 0, 0), vox::voxel::to_local(floor_world(-0.3, 0.0, 0.0)));
    assert_eq!(IVec3::new(15, 1, 0), vox::voxel::to_local(floor_world(-0.3, 17.3, 0.0)));
    assert_eq!(IVec3::new(1, 15, 1), vox::voxel::to_local(floor_world(1.1, -0.3, 17.5)));

    const TEST_COUNT: usize = 1000;
    const MAG: f32 = 100.0;
    let mut rng = Lcg(11);

    for _ in 0..TEST_COUNT {
        let base = IVec3::new(
            (rng.unit() * AXIS_SIZE as f32) as i32,
            (rng.unit() * AXIS_SIZE as f32) as i32,
            (rng.unit() * AXIS_SIZE as f32) as i32,
        );
        let sign = [rng.sign() as f32, rng.sign() as f32, rng.sign() as f32];
        let frag = [rng.unit() * 0.9, rng.unit() * 0.9, rng.unit() * 0.9];
        let world = [
            ((rng.unit() * MAG * sign[0]) as i32 * AXIS_SIZE as i32 + base.x) as f32,
            ((rng.unit() * MAG * sign[1]) as i32 * AXIS_SIZE as i32 + base.y) as f32,
            ((rng.unit() * MAG * sign[2]) as i32 * AXIS_SIZE as i32 + base.z) as f32,
        ];
        assert_eq!(
            base,
            vox::voxel::to_local(floor_world(world[0] + frag[0], world[1] + frag[1], world[2] + frag[2])),
            "Failed to convert {:?} ({:?}) to local",
            world,
            frag
        );
    }
}

#[test]
fn to_local_of_to_world_is_identity() {
    for c in [-3, 0, 5, i32::MIN, i32::MAX] {
        for v in [0, 7, 15] {
            let local = IVec3::new(v, 15 - v, v / 2);
            let chunk = IVec3::new(c, c / 2, 1);
            assert_eq!(local, vox::voxel::to_local(vox::voxel::to_world(local, chunk)));
        }
    }
}

#[test]
fn to_local_stays_in_chunk_for_negative_positions() {
    let r = vox::voxel::to_local(WorldVoxel { x: -1, y: -16, z: -17 });
    assert_eq!(r, IVec3::new(15, 0, 15));
    let r = vox::voxel::to_local(WorldVoxel { x: i64::MIN, y: i64::MAX, z: -33 });
    assert_eq!(r, IVec3::new(0, 15, 15));
}

#[test]
fn side_dirs_are_unit_vectors() {
    assert_eq!(Side::Right.dir(), IVec3::new(1, 0, 0));
    assert_eq!(Side::Left.dir(), IVec3::new(-1, 0, 0));
    assert_eq!(Side::Up.dir(), IVec3::new(0, 1, 0));
    assert_eq!(Side::Down.dir(), IVec3::new(0, -1, 0));
    assert_eq!(Side::Front.dir(), IVec3::new(0, 0, 1));
    assert_eq!(Side::Back.dir(), IVec3::new(0, 0, -1));
    for (i, side) in SIDES.iter().enumerate() {
        assert_eq!(side.index(), i);
        assert_eq!(Side::from_index(i), *side);
    }
}

#[test]
fn kind_emptiness() {
    assert!(Kind(0).is_empty());
    assert!(!Kind::from(3).is_empty());
    let layer: ChunkKind = ChunkStorage::new(Kind(0));
    assert_eq!(layer.as_slice().len(), 4096);
}

#[test]
fn faces_occlusion() {
    let mut occlusion = FacesOcclusion::default();
    assert!(!occlusion.is_fully_occluded());

    for side in SIDES {
        assert!(!occlusion.is_occluded(side));
    }

    occlusion.set(Side::Up, true);
    assert!(occlusion.is_occluded(Side::Up));

    occlusion.set(Side::Back, true);
    assert!(occlusion.is_occluded(Side::Back));

    for side in SIDES {
        occlusion.set(side, true);
    }

    assert!(occlusion.is_fully_occluded());

    for side in SIDES {
        assert!(occlusion.is_occluded(side));
    }

    occlusion.set(Side::Back, false);
    assert!(!occlusion.is_occluded(Side::Back));

    for side in SIDES {
        occlusion.set(side, false);
    }

    assert!(!occlusion.is_fully_occluded());

    for side in SIDES {
        assert!(!occlusion.is_occluded(side));
    }
}

#[test]
fn set_all_then_query() {
    let mut occlusion = FacesOcclusion::new();
    occlusion.set_all(true);
    assert!(occlusion.is_fully_occluded());
    occlusion.set_all(false);
    for side in SIDES {
        assert!(!occlusion.is_occluded(side));
    }
    assert!(!occlusion.is_fully_occluded());
}

#[test]
fn occlusion_from_flags() {
    let o = FacesOcclusion::from_flags([true, false, true, false, false, true]);
    assert!(o.is_occluded(Side::Right));
    assert!(!o.is_occluded(Side::Left));
    assert!(o.is_occluded(Side::Up));
    assert!(!o.is_occluded(Side::Down));
    assert!(!o.is_occluded(Side::Front));
    assert!(o.is_occluded(Side::Back));
    assert!(!o.is_fully_occluded());
    assert!(FacesOcclusion::from_flags([true; 6]).is_fully_occluded());
}

#[test]
fn occlusion_from_bool_array() {
    let o = FacesOcclusion::from([false, true, false, true, true, false]);
    assert_eq!(o, FacesOcclusion::from_flags([false, true, false, true, true, false]));
    assert!(!o.is_occluded(Side::Right));
    assert!(o.is_occluded(Side::Left));
    assert!(o.is_occluded(Side::Down));
    assert!(o.is_occluded(Side::Front));
    assert!(!o.is_occluded(Side::Back));
    assert_eq!(FacesOcclusion::from([false; 6]), FacesOcclusion::default());
}
