use voxelengine::chunk::Chunk;
use voxelengine::coords::{ChunkCoordinate, VoxelCoordinate};
use voxelengine::generator::{generate, generate_chunk_data, generate_world};
use voxelengine::grid::{ChunkSettings, Voxel, VoxelGrid};
use voxelengine::mesher::{build_chunk_mesh, voxel_color, ChunkMesh, CubePrimitive, VoxelColor};
use voxelengine::pool::MeshPool;
use voxelengine::scheduler::update_chunk_meshes;
use voxelengine::world::{WorldError, WorldIndex};

fn small_settings() -> ChunkSettings {
    ChunkSettings::new(2, 1, 2)
}

/// A 2x1x2 grid with voxels (0,0,0) and (1,0,1) solid, the other two air.
fn patterned_chunk(position: ChunkCoordinate) -> Chunk {
    let settings = small_settings();
    let mut voxels = VoxelGrid::new(&settings);
    voxels.set_voxel(VoxelCoordinate::new(0, 0, 0), Voxel { is_solid: true });
    voxels.set_voxel(VoxelCoordinate::new(1, 0, 1), Voxel { is_solid: true });
    Chunk {
        position,
        voxels,
        dirty: true,
        current_mesh: None,
    }
}

fn checker_chunk(position: ChunkCoordinate) -> Chunk {
    let settings = small_settings();
    let mut voxels = VoxelGrid::new(&settings);
    voxels.set_voxel(VoxelCoordinate::new(0, 0, 1), Voxel { is_solid: true });
    Chunk {
        position,
        voxels,
        dirty: true,
        current_mesh: None,
    }
}

fn geometry_of(pool: &MeshPool, chunk: &Chunk) -> Vec<CubePrimitive> {
    let handle = chunk.current_mesh.expect("chunk should own a mesh");
    let mesh = pool.mesh(handle).expect("handle should be live");
    mesh.primitives.clone()
}

#[test]
fn default_chunk_settings() {
    let settings = ChunkSettings::default();
    assert_eq!(settings.width, 32);
    assert_eq!(settings.height, 1);
    assert_eq!(settings.depth, 32);
}

#[test]
fn new_grid_is_all_air() {
    let settings = small_settings();
    let grid = VoxelGrid::new(&settings);
    for x in 0..2 {
        for z in 0..2 {
            assert!(!grid.voxel(VoxelCoordinate::new(x, 0, z)).is_solid);
        }
    }
}

#[test]
fn set_voxel_changes_only_its_cell() {
    let settings = small_settings();
    let mut grid = VoxelGrid::new(&settings);
    grid.set_voxel(VoxelCoordinate::new(1, 0, 0), Voxel { is_solid: true });
    assert!(grid.voxel(VoxelCoordinate::new(1, 0, 0)).is_solid);
    assert!(!grid.voxel(VoxelCoordinate::new(0, 0, 0)).is_solid);
    assert!(!grid.voxel(VoxelCoordinate::new(0, 0, 1)).is_solid);
    assert!(!grid.voxel(VoxelCoordinate::new(1, 0, 1)).is_solid);
}

#[test]
fn generated_chunk_matches_settings_and_lifecycle() {
    let settings = small_settings();
    let chunk = generate_chunk_data(&settings);
    assert_eq!(chunk.voxels.width, 2);
    assert_eq!(chunk.voxels.height, 1);
    assert_eq!(chunk.voxels.depth, 2);
    assert!(chunk.dirty);
    assert!(chunk.current_mesh.is_none());
    // Completeness: every local coordinate has a voxel to read.
    for x in 0..2 {
        for z in 0..2 {
            let _ = chunk.voxels.voxel(VoxelCoordinate::new(x, 0, z));
        }
    }
}

#[test]
fn generate_places_chunk_at_coordinate() {
    let settings = small_settings();
    let coordinate = ChunkCoordinate::new(4, -2, 7);
    let chunk = generate(coordinate, &settings);
    assert_eq!(chunk.position, coordinate);
    assert!(chunk.dirty);
}

#[test]
fn mesh_emits_one_primitive_per_solid_voxel() {
    // 2x1x2 chunk at chunk coordinate (1,2,3): world origin (2,2,6).
    let chunk = patterned_chunk(ChunkCoordinate::new(1, 2, 3));
    let mesh = build_chunk_mesh(&chunk);
    assert_eq!(mesh.primitives.len(), 2);
    assert_eq!(
        mesh.primitives[0],
        CubePrimitive { x: 2, y: 2, z: 6, color: VoxelColor::Green }
    );
    assert_eq!(
        mesh.primitives[1],
        CubePrimitive { x: 3, y: 2, z: 7, color: VoxelColor::Green }
    );
}

#[test]
fn mesh_of_all_air_chunk_is_empty() {
    let settings = small_settings();
    let chunk = Chunk {
        position: ChunkCoordinate::new(0, 0, 0),
        voxels: VoxelGrid::new(&settings),
        dirty: true,
        current_mesh: None,
    };
    let mesh = build_chunk_mesh(&chunk);
    assert!(mesh.primitives.is_empty());
}

#[test]
fn mesh_of_negative_chunk_coordinate() {
    let chunk = patterned_chunk(ChunkCoordinate::new(-1, 0, -2));
    let mesh = build_chunk_mesh(&chunk);
    assert_eq!(mesh.primitives.len(), 2);
    assert_eq!(
        mesh.primitives[0],
        CubePrimitive { x: -2, y: 0, z: -4, color: VoxelColor::Green }
    );
    assert_eq!(
        mesh.primitives[1],
        CubePrimitive { x: -1, y: 0, z: -3, color: VoxelColor::Green }
    );
}

#[test]
fn rebuild_clears_dirty_flag_and_installs_mesh() {
    let mut world = WorldIndex::new();
    let mut pool = MeshPool::new();
    world
        .insert(patterned_chunk(ChunkCoordinate::new(0, 0, 0)))
        .expect("first insert cannot collide");
    update_chunk_meshes(&mut world, &mut pool);
    let chunk = world
        .get(ChunkCoordinate::new(0, 0, 0))
        .expect("chunk exists");
    assert!(!chunk.dirty);
    assert!(chunk.current_mesh.is_some());
    assert_eq!(geometry_of(&pool, chunk).len(), 2);
}

#[test]
fn rebuilding_clean_chunk_is_a_noop() {
    let mut world = WorldIndex::new();
    let mut pool = MeshPool::new();
    world
        .insert(patterned_chunk(ChunkCoordinate::new(0, 0, 0)))
        .expect("first insert cannot collide");
    update_chunk_meshes(&mut world, &mut pool);
    let before_handle = world.chunks[0].current_mesh;
    let before_geometry =
        geometry_of(&pool, world.get(ChunkCoordinate::new(0, 0, 0)).unwrap());
    update_chunk_meshes(&mut world, &mut pool);
    assert_eq!(world.chunks[0].current_mesh, before_handle);
    let after_geometry =
        geometry_of(&pool, world.get(ChunkCoordinate::new(0, 0, 0)).unwrap());
    assert_eq!(after_geometry, before_geometry);
    assert_eq!(pool.live_count(), 1);
}

#[test]
fn rebuilding_twice_yields_identical_geometry() {
    let mut world = WorldIndex::new();
    let mut pool = MeshPool::new();
    world
        .insert(patterned_chunk(ChunkCoordinate::new(0, 0, 0)))
        .expect("first insert cannot collide");
    update_chunk_meshes(&mut world, &mut pool);
    let first = geometry_of(&pool, world.get(ChunkCoordinate::new(0, 0, 0)).unwrap());
    // Mark the chunk stale again without touching its voxels.
    world.chunks[0].dirty = true;
    update_chunk_meshes(&mut world, &mut pool);
    let second = geometry_of(&pool, world.get(ChunkCoordinate::new(0, 0, 0)).unwrap());
    assert_eq!(first, second);
    assert_eq!(pool.live_count(), 1);
}

#[test]
fn removing_chunk_releases_its_mesh_resource() {
    let mut world = WorldIndex::new();
    let mut pool = MeshPool::new();
    let before = pool.live_count();
    world
        .insert(patterned_chunk(ChunkCoordinate::new(0, 0, 0)))
        .expect("first insert cannot collide");
    update_chunk_meshes(&mut world, &mut pool);
    assert_eq!(pool.live_count(), before + 1);
    let handle = world.chunks[0].current_mesh.unwrap();
    assert!(world.remove(ChunkCoordinate::new(0, 0, 0), &mut pool));
    assert_eq!(pool.live_count(), before);
    assert!(pool.mesh(handle).is_none());
    assert_eq!(world.len(), 0);
}

#[test]
fn removing_missing_coordinate_changes_nothing() {
    let mut world = WorldIndex::new();
    let mut pool = MeshPool::new();
    world
        .insert(patterned_chunk(ChunkCoordinate::new(0, 0, 0)))
        .expect("first insert cannot collide");
    assert!(!world.remove(ChunkCoordinate::new(9, 9, 9), &mut pool));
    assert_eq!(world.len(), 1);
}

#[test]
fn scheduler_rebuilds_all_dirty_chunks_in_any_order() {
    let a = ChunkCoordinate::new(0, 0, 0);
    let b = ChunkCoordinate::new(1, 0, 0);

    let mut world_ab = WorldIndex::new();
    world_ab.insert(patterned_chunk(a)).expect("insert a");
    world_ab.insert(checker_chunk(b)).expect("insert b");
    let mut pool_ab = MeshPool::new();
    update_chunk_meshes(&mut world_ab, &mut pool_ab);

    let mut world_ba = WorldIndex::new();
    world_ba.insert(checker_chunk(b)).expect("insert b");
    world_ba.insert(patterned_chunk(a)).expect("insert a");
    let mut pool_ba = MeshPool::new();
    update_chunk_meshes(&mut world_ba, &mut pool_ba);

    for coordinate in [a, b] {
        let first = world_ab.get(coordinate).expect("chunk exists");
        let second = world_ba.get(coordinate).expect("chunk exists");
        assert!(!first.dirty);
        assert!(!second.dirty);
        assert_eq!(
            geometry_of(&pool_ab, first),
            geometry_of(&pool_ba, second)
        );
    }
}

#[test]
fn generate_world_covers_extent_exactly() {
    let settings = small_settings();
    let world = generate_world(2, 1, 2, &settings);
    assert_eq!(world.len(), 4);
    for x in 0..2 {
        for z in 0..2 {
            let coordinate = ChunkCoordinate::new(x, 0, z);
            let chunk = world.get(coordinate).expect("generated chunk exists");
            assert_eq!(chunk.position, coordinate);
            assert!(chunk.dirty);
            assert!(chunk.current_mesh.is_none());
            assert_eq!(chunk.voxels.width, 2);
        }
    }
    assert!(world.get(ChunkCoordinate::new(2, 0, 0)).is_none());
    assert!(!world.contains(ChunkCoordinate::new(0, 1, 0)));
}

#[test]
fn duplicate_coordinate_is_rejected_loudly() {
    let mut world = WorldIndex::new();
    let coordinate = ChunkCoordinate::new(3, 0, 3);
    world
        .insert(patterned_chunk(coordinate))
        .expect("first insert cannot collide");
    let result = world.insert(checker_chunk(coordinate));
    assert_eq!(result, Err(WorldError::DuplicateCoordinate { coordinate }));
    assert_eq!(world.len(), 1);
}

#[test]
fn pool_handles_are_never_reused() {
    let mut pool = MeshPool::new();
    let first = pool.install(ChunkMesh { primitives: vec![] });
    pool.release(first);
    let second = pool.install(ChunkMesh { primitives: vec![] });
    assert_ne!(first, second);
    assert_eq!(pool.live_count(), 1);
}

#[test]
fn pool_keeps_geometry_under_its_handle() {
    let mut pool = MeshPool::new();
    let prim = CubePrimitive { x: 5, y: 6, z: 7, color: VoxelColor::Green };
    let handle = pool.install(ChunkMesh { primitives: vec![prim] });
    let stored = pool.mesh(handle).expect("handle is live");
    assert_eq!(stored.primitives.len(), 1);
    assert_eq!(stored.primitives[0], prim);
    pool.release(handle);
    assert!(pool.mesh(handle).is_none());
    assert_eq!(pool.live_count(), 0);
}

#[test]
fn solid_voxels_render_green_air_red() {
    assert_eq!(voxel_color(true), VoxelColor::Green);
    assert_eq!(voxel_color(false), VoxelColor::Red);
}
