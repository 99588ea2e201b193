use voxel_terrain::compose::{build_world, WORLD_DIM};
use voxel_terrain::heightfield::{height_micro, populate_chunk_heightfield, target_height};
use voxel_terrain::meshing::{mesh_chunk, Vec2i, Vec3i};
use voxel_terrain::voxel::Voxel;
use voxel_terrain::world::{Chunk, CHUNK_SIZE};

fn v3(x: i32, y: i32, z: i32) -> Vec3i {
    Vec3i { x, y, z }
}

fn solid_chunk(size: u32) -> Chunk {
    let mut c = Chunk::new(size);
    for z in 0..size {
        for y in 0..size {
            for x in 0..size {
                c.set(x, y, z, Voxel(1));
            }
        }
    }
    c
}

#[test]
fn voxel_emptiness() {
    assert!(Voxel(0).is_empty());
    assert!(Voxel::air().is_empty());
    assert!(!Voxel(1).is_empty());
    assert!(!Voxel(255).is_empty());
    assert_eq!(Voxel::air(), Voxel(0));
}

#[test]
fn standard_configuration() {
    assert_eq!(CHUNK_SIZE, 32);
    assert_eq!(WORLD_DIM, 9);
}

#[test]
fn chunk_index_and_bounds() {
    let c = Chunk::new(4);
    assert_eq!(c.size(), 4);
    assert!(c.in_bounds(0, 0, 0));
    assert!(c.in_bounds(3, 3, 3));
    assert!(!c.in_bounds(4, 0, 0));
    assert!(!c.in_bounds(0, 4, 0));
    assert!(!c.in_bounds(0, 0, 4));
    assert_eq!(c.index(1, 2, 3), 1 + 2 * 4 + 3 * 16);
    assert_eq!(c.index(0, 0, 0), 0);
    assert_eq!(c.index(3, 3, 3), 63);
}

#[test]
fn get_out_of_range_is_air() {
    let mut c = Chunk::new(4);
    c.set(3, 3, 3, Voxel(7));
    assert_eq!(c.get(4, 0, 0), Voxel(0));
    assert_eq!(c.get(0, 4, 0), Voxel(0));
    assert_eq!(c.get(0, 0, 4), Voxel(0));
    assert_eq!(c.get(4, 4, 4), Voxel(0));
    assert_eq!(c.get(u32::MAX, u32::MAX, u32::MAX), Voxel(0));
    assert!(c.get(100, 3, 3).is_empty());
}

#[test]
fn set_then_get_returns_written_value() {
    let mut c = Chunk::new(4);
    c.set(1, 2, 3, Voxel(9));
    assert_eq!(c.get(1, 2, 3), Voxel(9));
    c.set(1, 2, 3, Voxel(4));
    assert_eq!(c.get(1, 2, 3), Voxel(4));
    c.set(0, 0, 0, Voxel(255));
    assert_eq!(c.get(0, 0, 0), Voxel(255));
    assert_eq!(c.get(1, 2, 3), Voxel(4));
}

#[test]
fn out_of_range_set_leaves_chunk_unchanged() {
    let mut c = Chunk::new(3);
    for z in 0..3 {
        for y in 0..3 {
            for x in 0..3 {
                c.set(x, y, z, Voxel((x + 3 * y + 9 * z) as u8));
            }
        }
    }
    c.set(3, 0, 0, Voxel(77));
    c.set(0, 3, 0, Voxel(77));
    c.set(0, 0, 3, Voxel(77));
    c.set(200, 200, 200, Voxel(77));
    for z in 0..3 {
        for y in 0..3 {
            for x in 0..3 {
                assert_eq!(c.get(x, y, z), Voxel((x + 3 * y + 9 * z) as u8));
            }
        }
    }
}

#[test]
fn meshing_empty_chunk_yields_empty_buffers() {
    let c = Chunk::new(4);
    let m = mesh_chunk(&c);
    assert!(m.positions.is_empty());
    assert!(m.normals.is_empty());
    assert!(m.uvs.is_empty());
    assert!(m.indices.is_empty());
}

#[test]
fn meshing_solid_two_chunk_yields_24_quads() {
    let c = solid_chunk(2);
    let m = mesh_chunk(&c);
    assert_eq!(m.positions.len(), 96);
    assert_eq!(m.normals.len(), 96);
    assert_eq!(m.uvs.len(), 96);
    assert_eq!(m.indices.len(), 144);
}

#[test]
fn meshing_single_voxel_yields_unit_cube() {
    let mut c = Chunk::new(2);
    c.set(0, 0, 0, Voxel(1));
    let m = mesh_chunk(&c);
    assert_eq!(m.positions.len(), 24);
    assert_eq!(m.normals.len(), 24);
    assert_eq!(m.uvs.len(), 24);
    assert_eq!(m.indices.len(), 36);

    // Faces come out in the order -x, +x, -y, +y, -z, +z.
    assert_eq!(
        m.positions[0..4].to_vec(),
        vec![v3(0, 0, 0), v3(0, 0, 1), v3(0, 1, 1), v3(0, 1, 0)],
    );
    assert_eq!(
        m.positions[4..8].to_vec(),
        vec![v3(1, 0, 0), v3(1, 1, 0), v3(1, 1, 1), v3(1, 0, 1)],
    );
    assert_eq!(
        m.positions[8..12].to_vec(),
        vec![v3(0, 0, 0), v3(1, 0, 0), v3(1, 0, 1), v3(0, 0, 1)],
    );
    assert_eq!(
        m.positions[12..16].to_vec(),
        vec![v3(0, 1, 0), v3(0, 1, 1), v3(1, 1, 1), v3(1, 1, 0)],
    );
    assert_eq!(
        m.positions[16..20].to_vec(),
        vec![v3(0, 0, 0), v3(0, 1, 0), v3(1, 1, 0), v3(1, 0, 0)],
    );
    assert_eq!(
        m.positions[20..24].to_vec(),
        vec![v3(0, 0, 1), v3(1, 0, 1), v3(1, 1, 1), v3(0, 1, 1)],
    );
}

#[test]
fn quad_normals_are_outward_unit_vectors() {
    let mut c = Chunk::new(2);
    c.set(0, 0, 0, Voxel(1));
    let m = mesh_chunk(&c);
    let expected = [
        v3(-1, 0, 0),
        v3(1, 0, 0),
        v3(0, -1, 0),
        v3(0, 1, 0),
        v3(0, 0, -1),
        v3(0, 0, 1),
    ];
    for (q, n) in expected.iter().enumerate() {
        for k in 0..4 {
            assert_eq!(m.normals[4 * q + k], *n);
        }
    }
}

#[test]
fn quad_uvs_follow_canonical_pattern() {
    let c = solid_chunk(2);
    let m = mesh_chunk(&c);
    let pattern = [
        Vec2i { u: 0, v: 0 },
        Vec2i { u: 1, v: 0 },
        Vec2i { u: 1, v: 1 },
        Vec2i { u: 0, v: 1 },
    ];
    for q in 0..m.uvs.len() / 4 {
        for k in 0..4 {
            assert_eq!(m.uvs[4 * q + k], pattern[k]);
        }
    }
}

#[test]
fn quad_indices_reference_own_vertices() {
    let c = solid_chunk(2);
    let m = mesh_chunk(&c);
    for q in 0..m.indices.len() / 6 {
        let b = (4 * q) as u32;
        assert_eq!(
            m.indices[6 * q..6 * q + 6].to_vec(),
            vec![b, b + 1, b + 2, b, b + 2, b + 3],
        );
    }
}

#[test]
fn mesh_buffer_lengths_are_multiples() {
    let mut c = Chunk::new(8);
    populate_chunk_heightfield(0, 0, 0, &mut c, 2);
    let m = mesh_chunk(&c);
    assert_eq!(m.indices.len() % 6, 0);
    assert_eq!(m.positions.len() % 4, 0);
    assert_eq!(m.normals.len(), m.positions.len());
    assert_eq!(m.uvs.len(), m.positions.len());
    assert_eq!(m.indices.len(), m.positions.len() / 4 * 6);
}

#[test]
fn height_is_deterministic_and_non_negative() {
    for (x, z) in [(0u64, 0u64), (1, 2), (17, 93), (123456, 789012), (1000000000, 1000000000)] {
        let a = height_micro(x, z);
        let b = height_micro(x, z);
        assert_eq!(a, b);
        assert!(a >= 0);
    }
}

#[test]
fn height_at_origin_exact_value() {
    // sin(0) = 0 and the quarter-turn-shifted cosine arch gives 999/1000,
    // so the origin height is (0 + 999) * 4500 + 14000000 micro-units.
    assert_eq!(height_micro(0, 0), 18_495_500);
    assert_eq!(target_height(0, 0, 287), 18);
    assert_eq!(target_height(0, 0, 5), 5);
}

#[test]
fn adjoining_chunk_columns_agree_on_target_height() {
    // Two vertically adjoining chunks cover the same world columns; the
    // voxels they generate must cut off at one shared target height.
    let e = 4u32;
    let wd = 8u32;
    let max_h = (wd * e - 1) as u64;
    let mut lower = Chunk::new(e);
    let mut upper = Chunk::new(e);
    populate_chunk_heightfield(0, 0, 0, &mut lower, wd);
    populate_chunk_heightfield(0, 1, 0, &mut upper, wd);
    for z in 0..e {
        for x in 0..e {
            let t = target_height(x as u64, z as u64, max_h);
            for y in 0..e {
                let world_y_lower = y as u64;
                let world_y_upper = (e + y) as u64;
                assert_eq!(!lower.get(x, y, z).is_empty(), world_y_lower <= t);
                assert_eq!(!upper.get(x, y, z).is_empty(), world_y_upper <= t);
            }
        }
    }
}

#[test]
fn populate_marks_columns_up_to_target() {
    let e = 8u32;
    let wd = 4u32;
    let max_h = (wd * e - 1) as u64;
    let mut c = Chunk::new(e);
    populate_chunk_heightfield(2, 1, 3, &mut c, wd);
    for z in 0..e {
        for x in 0..e {
            let wx = (2 * e + x) as u64;
            let wz = (3 * e + z) as u64;
            let t = target_height(wx, wz, max_h);
            for y in 0..e {
                let wy = (e + y) as u64;
                assert_eq!(!c.get(x, y, z).is_empty(), wy <= t);
            }
        }
    }
}

#[test]
fn build_world_emits_solid_chunks_in_order() {
    // With a 2x2x2 lattice of edge-2 chunks the world is 4 voxels tall, the
    // target height (about 18) is clamped to 3 everywhere, and every chunk
    // comes out fully solid: 8 placed meshes of 24 quads each.
    let placed = build_world(2, 2);
    assert_eq!(placed.len(), 8);
    let mut expected = Vec::new();
    for cz in 0..2u32 {
        for cy in 0..2u32 {
            for cx in 0..2u32 {
                expected.push((cx, cy, cz));
            }
        }
    }
    for (p, e) in placed.iter().zip(expected.iter()) {
        assert_eq!((p.cx, p.cy, p.cz), *e);
        assert_eq!(p.mesh.positions.len(), 96);
        assert_eq!(p.mesh.indices.len(), 144);
        let (cx, cy, cz) = *e;
        assert_eq!(
            p.translation(2),
            ((cx * 2) as u64, (cy * 2) as u64, (cz * 2) as u64),
        );
    }
}

#[test]
fn build_world_drops_empty_chunks() {
    // A 16-chunk-tall stack of edge-2 chunks reaches world height 31, far
    // above the terrain, so the topmost chunks hold only air and are
    // dropped.
    let placed = build_world(16, 2);
    assert!(placed.iter().any(|p| p.cy == 0));
    assert!(placed.iter().all(|p| p.cy != 15));
    assert!(placed.iter().all(|p| !p.mesh.indices.is_empty()));
}
