use greedy_mesher::catalog::{Block, Registry};
use greedy_mesher::classify::{get_face_dir, mask_at, pack_ao_mask};
use greedy_mesher::context::{allocate_voxels, mesh, mesh_geometry, register_block, register_facet, validate, Mesher, RacyCell};
use greedy_mesher::emit::{decode, Geometry};
use greedy_mesher::merge::{merge_plane, Quad};
use greedy_mesher::mesher::mesh_impl;
use greedy_mesher::volume::{MeshError, Tensor3};

const AIR: u32 = 0;
const STONE: u32 = 1;

/// Air, then stone (opaque, solid, facet 1 on every side); facets 0 (reserved) and 1.
fn session() -> Mesher {
    let mut m = Mesher::new();
    register_facet(&mut m, 0, 0, 0, 0, 0);
    register_facet(&mut m, 1, 2, 3, 4, 5);
    register_block(&mut m, 0, 0, 0, 0, 0, 0, false, false);
    register_block(&mut m, 1, 1, 1, 1, 1, 1, true, true);
    m
}

fn fill(m: &mut Mesher, x0: usize, x1: usize, y0: usize, y1: usize, z0: usize, z1: usize, b: u32) {
    for x in x0..x1 {
        for y in y0..y1 {
            for z in z0..z1 {
                m.voxels.set(x, y, z, b);
            }
        }
    }
}

fn quads(m: &mut Mesher) -> Vec<Quad> {
    m.quads().unwrap()
}

fn same_geometry(a: &Geometry, b: &Geometry) -> bool {
    a.quad_facets == b.quad_facets
        && a.positions == b.positions
        && a.normals == b.normals
        && a.uvws == b.uvws
        && a.ao == b.ao
        && a.indices == b.indices
}

#[test]
fn empty_volume_of_any_shape_has_no_quads() {
    for (x, y, z) in [(2, 2, 2), (3, 3, 3), (2, 5, 4), (6, 3, 7), (5, 5, 5)] {
        let mut m = session();
        allocate_voxels(&mut m, x, y, z).unwrap();
        assert_eq!(mesh(&mut m), Ok(0));
    }
}

#[test]
fn two_cubed_volume_has_no_quads_whatever_it_holds() {
    let mut m = session();
    allocate_voxels(&mut m, 2, 2, 2).unwrap();
    fill(&mut m, 0, 2, 0, 2, 0, 2, STONE);
    assert_eq!(mesh(&mut m), Ok(0));
    m.voxels.set(0, 0, 0, AIR);
    assert_eq!(mesh(&mut m), Ok(0));
}

#[test]
fn volume_thinner_than_three_has_no_quads() {
    let mut m = session();
    allocate_voxels(&mut m, 1, 4, 4).unwrap();
    fill(&mut m, 0, 1, 1, 3, 1, 3, STONE);
    assert_eq!(mesh(&mut m), Ok(0));
}

#[test]
fn single_block_has_six_unoccluded_quads() {
    let mut m = session();
    allocate_voxels(&mut m, 3, 3, 3).unwrap();
    m.voxels.set(1, 1, 1, STONE);
    let q = quads(&mut m);
    assert_eq!(q.len(), 6);
    let expected = [(0, 0, -256), (0, 1, 256), (1, 0, -256), (1, 1, 256), (2, 0, -256), (2, 1, 256)];
    for (i, (axis, layer, code)) in expected.iter().enumerate() {
        assert_eq!(q[i], Quad { axis: *axis, layer: *layer, u: 0, v: 0, w: 1, h: 1, code: *code });
    }
    let g = mesh_geometry(&mut m).unwrap();
    assert_eq!(g.ao.len(), 24);
    assert!(g.ao.iter().all(|a| *a == 0));
    assert_eq!(g.quad_facets, vec![1, 1, 1, 1, 1, 1]);
}

#[test]
fn single_block_geometry_values() {
    let mut m = session();
    allocate_voxels(&mut m, 3, 3, 3).unwrap();
    m.voxels.set(1, 1, 1, STONE);
    let g = mesh_geometry(&mut m).unwrap();
    assert_eq!(g.positions.len(), 72);
    assert_eq!(g.normals.len(), 72);
    assert_eq!(g.uvws.len(), 72);
    assert_eq!(g.indices.len(), 36);
    // interior frame: the block spans the unit cube at the origin; its -x face lies in x = 0
    assert_eq!(&g.positions[0..12], &[0, 0, 0, 0, 1, 0, 0, 1, 1, 0, 0, 1]);
    assert_eq!(&g.normals[0..12], &[-1, 0, 0, -1, 0, 0, -1, 0, 0, -1, 0, 0]);
    assert_eq!(&g.uvws[0..12], &[0, 1, 5, 0, 0, 5, -1, 0, 5, -1, 1, 5]);
    assert_eq!(&g.indices[0..6], &[1, 2, 3, 0, 1, 3]);
    // the face toward +x lies in the plane x = 1
    assert_eq!(&g.positions[12..24], &[1, 0, 0, 1, 1, 0, 1, 1, 1, 1, 0, 1]);
    assert_eq!(&g.normals[12..15], &[1, 0, 0]);
    assert_eq!(&g.uvws[12..24], &[0, 1, 5, 0, 0, 5, 1, 0, 5, 1, 1, 5]);
    assert_eq!(&g.indices[6..12], &[7, 5, 4, 7, 6, 5]);
    // the face toward +z: first tangent x, second y
    assert_eq!(&g.positions[60..72], &[0, 0, 1, 1, 0, 1, 1, 1, 1, 0, 1, 1]);
    assert_eq!(&g.normals[60..63], &[0, 0, 1]);
    assert_eq!(&g.uvws[60..72], &[0, 1, 5, -1, 1, 5, -1, 0, 5, 0, 0, 5]);
}

#[test]
fn adjacent_opaque_blocks_share_no_face() {
    let mut m = session();
    register_block(&mut m, 1, 1, 1, 1, 1, 1, true, true);
    allocate_voxels(&mut m, 4, 3, 3).unwrap();
    m.voxels.set(1, 1, 1, STONE);
    m.voxels.set(2, 1, 1, 2);
    let q = quads(&mut m);
    // the face between x = 1 and x = 2 is layer 1 of the x sweep
    assert!(q.iter().all(|q| !(q.axis == 0 && q.layer == 1)));
    assert_eq!(q.iter().filter(|q| q.axis == 0).count(), 2);
    assert_eq!(q.len(), 6);
}

#[test]
fn same_transparent_material_shares_no_face() {
    let mut m = session();
    // two distinct glass blocks that show facet 1 on every side
    register_block(&mut m, 1, 1, 1, 1, 1, 1, false, false);
    register_block(&mut m, 1, 1, 1, 1, 1, 1, false, false);
    allocate_voxels(&mut m, 4, 3, 3).unwrap();
    m.voxels.set(1, 1, 1, 2);
    m.voxels.set(2, 1, 1, 3);
    let q = quads(&mut m);
    assert!(q.iter().all(|q| !(q.axis == 0 && q.layer == 1)));
    assert_eq!(q.iter().filter(|q| q.axis == 0).count(), 2);
}

#[test]
fn distinct_transparent_materials_share_no_face() {
    let mut m = session();
    register_facet(&mut m, 0, 0, 0, 0, 7);
    register_block(&mut m, 1, 1, 1, 1, 1, 1, false, false);
    register_block(&mut m, 2, 2, 2, 2, 2, 2, false, false);
    allocate_voxels(&mut m, 4, 3, 3).unwrap();
    m.voxels.set(1, 1, 1, 2);
    m.voxels.set(2, 1, 1, 3);
    let q = quads(&mut m);
    assert!(q.iter().all(|q| !(q.axis == 0 && q.layer == 1)));
    assert_eq!(q.iter().filter(|q| q.axis == 0).count(), 2);
}

#[test]
fn flat_wall_merges_into_one_quad_per_side() {
    let mut m = session();
    allocate_voxels(&mut m, 3, 6, 5).unwrap();
    fill(&mut m, 1, 2, 1, 5, 1, 4, STONE);
    let q = quads(&mut m);
    assert_eq!(q.len(), 6);
    assert!(q.contains(&Quad { axis: 0, layer: 0, u: 0, v: 0, w: 4, h: 3, code: -256 }));
    assert!(q.contains(&Quad { axis: 0, layer: 1, u: 0, v: 0, w: 4, h: 3, code: 256 }));
}

#[test]
fn occluded_cell_splits_the_wall() {
    let mut m = session();
    allocate_voxels(&mut m, 4, 7, 7).unwrap();
    fill(&mut m, 1, 2, 1, 6, 1, 6, STONE);
    let before = quads(&mut m);
    assert_eq!(before.iter().filter(|q| q.axis == 0 && q.layer == 1).count(), 1);
    m.voxels.set(2, 3, 3, STONE);
    let after = quads(&mut m);
    assert!(after.iter().filter(|q| q.axis == 0 && q.layer == 1).count() > 1);
}

#[test]
fn meshing_twice_gives_the_same_geometry() {
    let mut m = session();
    allocate_voxels(&mut m, 5, 6, 4).unwrap();
    fill(&mut m, 1, 3, 1, 4, 1, 3, STONE);
    m.voxels.set(3, 2, 2, STONE);
    let a = mesh_geometry(&mut m).unwrap();
    let b = mesh_geometry(&mut m).unwrap();
    assert!(same_geometry(&a, &b));
    assert_eq!(mesh(&mut m), mesh(&mut m));
}

#[test]
fn buffer_reuse_across_shapes_leaks_nothing() {
    let mut m = session();
    allocate_voxels(&mut m, 8, 8, 8).unwrap();
    fill(&mut m, 1, 7, 1, 7, 1, 7, STONE);
    m.voxels.set(3, 3, 3, AIR);
    quads(&mut m);
    allocate_voxels(&mut m, 3, 4, 3).unwrap();
    m.voxels.set(1, 2, 1, STONE);
    let reused = quads(&mut m);
    let mut fresh = session();
    allocate_voxels(&mut fresh, 3, 4, 3).unwrap();
    fresh.voxels.set(1, 2, 1, STONE);
    assert_eq!(reused, quads(&mut fresh));
    assert_eq!(reused.len(), 6);
}

#[test]
fn face_dir_rules() {
    let mut r = Registry::new();
    r.add_block(Block { facets: [0; 6], opaque: false, solid: false });
    r.add_block(Block { facets: [1; 6], opaque: true, solid: true });
    r.add_block(Block { facets: [2; 6], opaque: true, solid: true });
    r.add_block(Block { facets: [3; 6], opaque: false, solid: false });
    r.add_block(Block { facets: [3; 6], opaque: false, solid: false });
    r.add_block(Block { facets: [4; 6], opaque: false, solid: false });
    assert_eq!(get_face_dir(&r, 1, 1, 0), 0);
    assert_eq!(get_face_dir(&r, 1, 2, 2), 0);
    assert_eq!(get_face_dir(&r, 1, 0, 4), 1);
    assert_eq!(get_face_dir(&r, 0, 2, 0), -1);
    assert_eq!(get_face_dir(&r, 3, 4, 0), 0);
    assert_eq!(get_face_dir(&r, 0, 3, 0), -1);
    assert_eq!(get_face_dir(&r, 3, 0, 0), 1);
    assert_eq!(get_face_dir(&r, 3, 5, 0), 0);
}

#[test]
fn ambient_occlusion_counts_edges_then_diagonals() {
    let mut m = session();
    allocate_voxels(&mut m, 3, 3, 3).unwrap();
    assert_eq!(pack_ao_mask(&m.voxels, &m.registry, 0, 0, 1, 1), 0);
    m.voxels.set(0, 2, 1, STONE);
    assert_eq!(pack_ao_mask(&m.voxels, &m.registry, 0, 0, 1, 1), 4 + 16);
    m.voxels.set(0, 0, 0, STONE);
    m.voxels.set(0, 2, 2, STONE);
    assert_eq!(pack_ao_mask(&m.voxels, &m.registry, 0, 0, 1, 1), 1 + 4 + 16);
    m.voxels.set(0, 1, 2, STONE);
    m.voxels.set(0, 0, 2, STONE);
    // a01 = 1 edge (+v) + 0 (-u is air), a11 = 2 edges
    assert_eq!(pack_ao_mask(&m.voxels, &m.registry, 0, 0, 1, 1), 1 + 4 * 1 + 16 * 2 + 64 * 1);
}

#[test]
fn mask_code_packs_facet_and_occlusion() {
    let mut m = session();
    register_facet(&mut m, 0, 0, 0, 0, 0);
    register_facet(&mut m, 0, 0, 0, 0, 0);
    register_block(&mut m, 2, 3, 2, 3, 2, 3, true, true);
    allocate_voxels(&mut m, 3, 4, 3).unwrap();
    m.voxels.set(1, 1, 1, 2);
    m.voxels.set(0, 2, 1, STONE);
    // the -x face of the block: facet 3 negated, occlusion sampled at x = 0
    assert_eq!(mask_at(&m.voxels, &m.registry, 0, 0, 0, 0), -3 * 256 + 4 + 16);
    assert_eq!(mask_at(&m.voxels, &m.registry, 0, 1, 0, 0), 2 * 256);
    assert_eq!(mask_at(&m.voxels, &m.registry, 0, 1, 1, 0), 0);
}

#[test]
fn decode_splits_codes() {
    assert_eq!(decode(2 * 256 + 37), (2, 37));
    assert_eq!(decode(-3 * 256 + 21), (3, 21));
    assert_eq!(decode(-256), (1, 0));
    assert_eq!(decode(-1), (1, 255));
}

#[test]
fn merge_emits_greedy_rectangles() {
    // rows of 3: [5 5 0 / 5 5 7 / 0 7 7]
    let mut plane = vec![5, 5, 0, 5, 5, 7, 0, 7, 7];
    let mut out = Vec::new();
    merge_plane(&mut plane, 3, 3, 1, 4, &mut out);
    assert_eq!(
        out,
        vec![
            Quad { axis: 1, layer: 4, u: 0, v: 0, w: 2, h: 2, code: 5 },
            Quad { axis: 1, layer: 4, u: 1, v: 2, w: 2, h: 1, code: 7 },
            Quad { axis: 1, layer: 4, u: 2, v: 1, w: 1, h: 1, code: 7 },
        ]
    );
    assert!(plane.iter().all(|c| *c == 0));
}

#[test]
fn mesh_impl_ignores_stale_buffer() {
    let m = {
        let mut m = session();
        allocate_voxels(&mut m, 3, 3, 3).unwrap();
        m.voxels.set(1, 1, 1, STONE);
        m
    };
    let mut stale = vec![99i64; 50];
    let a = mesh_impl(&mut stale, &m.registry, &m.voxels);
    let b = mesh_impl(&mut Vec::new(), &m.registry, &m.voxels);
    assert_eq!(a, b);
    assert_eq!(a.len(), 6);
}

#[test]
fn triangle_split_follows_occlusion() {
    // block with a solid neighbour diagonal to its -x face's a00 corner
    let mut m = session();
    allocate_voxels(&mut m, 3, 3, 3).unwrap();
    m.voxels.set(1, 1, 1, STONE);
    m.voxels.set(0, 0, 0, STONE);
    let q = quads(&mut m);
    let g = mesh_geometry(&mut m).unwrap();
    let first = q.iter().position(|q| q.axis == 0 && q.layer == 0).unwrap();
    assert_eq!(q[first].code, -256 + 1);
    assert_eq!(&g.ao[4 * first..4 * first + 4], &[1, 0, 0, 0]);
    // a00 != a11 and a10 == a01: no hint, so offsets 1 2 3 0 1 3
    let base = 4 * first as u64;
    assert_eq!(&g.indices[6 * first..6 * first + 6], &[base + 1, base + 2, base + 3, base, base + 1, base + 3]);
}

#[test]
fn unknown_block_id_is_reported() {
    let mut m = session();
    allocate_voxels(&mut m, 3, 3, 3).unwrap();
    m.voxels.set(1, 1, 1, 9);
    assert_eq!(mesh(&mut m), Err(MeshError::UnknownBlockId));
}

#[test]
fn unknown_facet_id_is_reported() {
    let mut m = session();
    register_block(&mut m, 7, 1, 1, 1, 1, 1, true, true);
    allocate_voxels(&mut m, 3, 3, 3).unwrap();
    assert_eq!(mesh(&mut m), Err(MeshError::UnknownFacetId));
    assert!(mesh_geometry(&mut m).is_err());
}

#[test]
fn invalid_volume_shape_is_reported() {
    let mut m = session();
    assert_eq!(allocate_voxels(&mut m, usize::MAX, 2, 1), Err(MeshError::InvalidVolumeShape));
    allocate_voxels(&mut m, 3, 3, 3).unwrap();
    m.voxels.shape = [4, 3, 3];
    assert_eq!(mesh(&mut m), Err(MeshError::InvalidVolumeShape));
    assert_eq!(validate(&m.voxels, &m.registry), Err(MeshError::InvalidVolumeShape));
}

#[test]
fn fresh_volume_and_cell() {
    let t = Tensor3::new();
    assert_eq!(t.data.len(), 0);
    assert_eq!(t.shape, [0, 0, 0]);
    let mut c = RacyCell::new(3);
    *c.get_mut() += 1;
    assert_eq!(*c.get(), 4);
}

#[test]
fn buffer_is_zero_and_grown_after_mesh() {
    let mut m = session();
    m.mask_data.get_mut().extend_from_slice(&[7; 40]);
    allocate_voxels(&mut m, 5, 6, 4).unwrap();
    fill(&mut m, 1, 3, 1, 4, 1, 3, STONE);
    mesh(&mut m).unwrap();
    // planes are 4x2, 2x3 and 3x4: the largest holds 12 cells
    let buf = m.mask_data.get();
    assert_eq!(buf.len(), 40);
    assert!(buf[..12].iter().all(|c| *c == 0));
    assert!(buf[12..].iter().all(|c| *c == 7));
    let mut small = session();
    allocate_voxels(&mut small, 5, 6, 4).unwrap();
    mesh(&mut small).unwrap();
    assert_eq!(small.mask_data.get().len(), 12);
}

#[test]
fn degenerate_volume_leaves_buffer_untouched() {
    let mut m = session();
    m.mask_data.get_mut().extend_from_slice(&[3, -4, 5]);
    allocate_voxels(&mut m, 2, 2, 2).unwrap();
    fill(&mut m, 0, 2, 0, 2, 0, 2, 9);
    let q = mesh_impl(m.mask_data.get_mut(), &m.registry, &m.voxels);
    assert!(q.is_empty());
    assert_eq!(m.mask_data.get(), &vec![3, -4, 5]);
    assert_eq!(mesh(&mut m), Err(MeshError::UnknownBlockId));
    assert_eq!(m.mask_data.get(), &vec![3, -4, 5]);
}

#[test]
fn registration_leaves_buffer_untouched() {
    let mut m = session();
    m.mask_data.get_mut().push(11);
    register_block(&mut m, 1, 1, 1, 1, 1, 1, false, true);
    register_facet(&mut m, 0, 0, 0, 0, 2);
    allocate_voxels(&mut m, 3, 3, 3).unwrap();
    assert_eq!(m.mask_data.get(), &vec![11]);
}

#[test]
fn uniform_plane_merges_whole() {
    let mut plane = vec![300i64; 12];
    let mut out = Vec::new();
    merge_plane(&mut plane, 3, 4, 2, 0, &mut out);
    assert_eq!(out, vec![Quad { axis: 2, layer: 0, u: 0, v: 0, w: 3, h: 4, code: 300 }]);
}

#[test]
fn one_differing_code_splits_plane() {
    let mut plane = vec![300i64; 9];
    plane[4] = 301;
    let mut out = Vec::new();
    merge_plane(&mut plane, 3, 3, 0, 0, &mut out);
    assert!(out.len() >= 2);
    assert_eq!(out.iter().map(|q| q.w * q.h).sum::<usize>(), 9);
}

#[test]
fn thin_volume_still_grows_buffer() {
    let mut m = session();
    allocate_voxels(&mut m, 2, 5, 5).unwrap();
    fill(&mut m, 0, 2, 1, 4, 1, 4, STONE);
    assert_eq!(mesh(&mut m), Ok(0));
    assert_eq!(m.mask_data.get(), &vec![0; 9]);
    m.mask_data.get_mut().clear();
    m.mask_data.get_mut().extend_from_slice(&[5; 12]);
    assert_eq!(mesh(&mut m), Ok(0));
    assert_eq!(&m.mask_data.get()[..9], &[0; 9]);
    assert_eq!(&m.mask_data.get()[9..], &[5, 5, 5]);
}

#[test]
fn flat_volume_leaves_buffer_untouched() {
    let mut m = session();
    allocate_voxels(&mut m, 1, 5, 5).unwrap();
    m.mask_data.get_mut().push(8);
    assert_eq!(mesh(&mut m), Ok(0));
    assert_eq!(m.mask_data.get(), &vec![8]);
}
