use vstd::prelude::*;
use crate::catalog::{Block, Registry, NO_MATERIAL};
use crate::volume::Tensor3;

verus! {

/// The first tangent axis of a sweep along axis `d`.
pub open spec fn axis_u(d: int) -> int {
    (d + 1) % 3
}

/// The second tangent axis of a sweep along axis `d`.
pub open spec fn axis_v(d: int) -> int {
    (d + 2) % 3
}

/// The `(x, y, z)` cell that lies at `pd` along axis `d`, `pu` along its first
/// tangent axis and `pv` along its second.
pub open spec fn cell_of(d: int, pd: int, pu: int, pv: int) -> (int, int, int) {
    if d == 0 {
        (pd, pu, pv)
    } else if d == 1 {
        (pv, pd, pu)
    } else {
        (pu, pv, pd)
    }
}

/// The extent of the volume along axis `a`.
pub open spec fn extent(vol: &Tensor3, a: int) -> int {
    if a == 0 {
        vol.shape[0] as int
    } else if a == 1 {
        vol.shape[1] as int
    } else {
        vol.shape[2] as int
    }
}

/// The axis-relative cell lies inside the volume.
pub open spec fn rel_in(vol: &Tensor3, d: int, pd: int, pu: int, pv: int) -> bool {
    &&& 0 <= pd < extent(vol, d)
    &&& 0 <= pu < extent(vol, axis_u(d))
    &&& 0 <= pv < extent(vol, axis_v(d))
}

/// The block id at an axis-relative cell.
pub open spec fn rel_block(vol: &Tensor3, d: int, pd: int, pu: int, pv: int) -> u32 {
    let c = cell_of(d, pd, pu, pv);
    vol.block_at(c.0, c.1, c.2)
}

/// The volume is well formed and each of its cells names a known block.
pub open spec fn ready(vol: &Tensor3, reg: &Registry) -> bool {
    &&& vol.wf()
    &&& forall|i: int| 0 <= i < vol.data@.len() ==> (#[trigger] vol.data@[i] as int) < reg.blocks@.len()
}

/// Which way the face between `b0` (negative side) and `b1` (positive side)
/// looks along the sweep whose forward side index is `dir`: `1`, `-1`, or `0`
/// when no face is drawn.
pub open spec fn face_dir(blocks: Seq<Block>, b0: u32, b1: u32, dir: int) -> int {
    let k0 = blocks[b0 as int];
    let k1 = blocks[b1 as int];
    if b0 == b1 {
        0
    } else if k0.opaque && k1.opaque {
        0
    } else if k0.opaque {
        1
    } else if k1.opaque {
        -1
    } else {
        let m0 = k0.facets[dir];
        let m1 = k1.facets[dir + 1];
        if m0 == m1 {
            0
        } else if m0 == NO_MATERIAL {
            -1
        } else if m1 == NO_MATERIAL {
            1
        } else {
            0
        }
    }
}

/// The block at an axis-relative cell is solid.
pub open spec fn solid_at(vol: &Tensor3, blocks: Seq<Block>, d: int, pd: int, pu: int, pv: int) -> bool {
    blocks[rel_block(vol, d, pd, pu, pv) as int].solid
}

pub open spec fn b2i(b: bool) -> int {
    if b { 1 } else { 0 }
}

/// The occlusion level of one corner, from its two edge neighbours and its
/// diagonal one; the diagonal counts only where neither edge neighbour does.
pub open spec fn corner_level(e1: bool, e2: bool, diag: bool) -> int {
    if e1 || e2 {
        b2i(e1) + b2i(e2)
    } else {
        b2i(diag)
    }
}

/// The packed occlusion byte of the face seen from cell `(pd, pu, pv)`:
/// `a00` in bits 0-1, `a10` in 2-3, `a11` in 4-5 and `a01` in 6-7, where the
/// first digit is the side along the first tangent axis and the second the
/// side along the second.
pub open spec fn ao_code(vol: &Tensor3, blocks: Seq<Block>, d: int, pd: int, pu: int, pv: int) -> int {
    let um = solid_at(vol, blocks, d, pd, pu - 1, pv);
    let up = solid_at(vol, blocks, d, pd, pu + 1, pv);
    let vm = solid_at(vol, blocks, d, pd, pu, pv - 1);
    let vp = solid_at(vol, blocks, d, pd, pu, pv + 1);
    let a00 = corner_level(um, vm, solid_at(vol, blocks, d, pd, pu - 1, pv - 1));
    let a01 = corner_level(um, vp, solid_at(vol, blocks, d, pd, pu - 1, pv + 1));
    let a10 = corner_level(up, vm, solid_at(vol, blocks, d, pd, pu + 1, pv - 1));
    let a11 = corner_level(up, vp, solid_at(vol, blocks, d, pd, pu + 1, pv + 1));
    a00 + 4 * a10 + 16 * a11 + 64 * a01
}

/// The mask code of plane cell `(a, b)` in layer `k` of the sweep along `d`:
/// the face between the cells at `k` and `k + 1` along `d`, both at `a + 1`
/// and `b + 1` along the tangent axes. Zero where no face is drawn, else the
/// facet id, negated for a face looking backwards, times 256 plus the
/// occlusion byte sampled at the cell in front of the face.
pub open spec fn mask_code(vol: &Tensor3, blocks: Seq<Block>, d: int, k: int, a: int, b: int) -> int {
    let b0 = rel_block(vol, d, k, a + 1, b + 1);
    let b1 = rel_block(vol, d, k + 1, a + 1, b + 1);
    let f = face_dir(blocks, b0, b1, 2 * d);
    if f == 0 {
        0
    } else if f > 0 {
        blocks[b0 as int].facets[2 * d] * 256 + ao_code(vol, blocks, d, k + 1, a + 1, b + 1)
    } else {
        -(blocks[b1 as int].facets[2 * d + 1] as int) * 256 + ao_code(vol, blocks, d, k, a + 1, b + 1)
    }
}

/// The plane cell `(a, b)` of layer `k` lies in the sweep along `d`.
pub open spec fn plane_cell_in(vol: &Tensor3, d: int, k: int, a: int, b: int) -> bool {
    &&& 0 <= d < 3
    &&& 0 <= k && k + 2 <= extent(vol, d)
    &&& 0 <= a && a + 3 <= extent(vol, axis_u(d))
    &&& 0 <= b && b + 3 <= extent(vol, axis_v(d))
}

/// The block id at an axis-relative cell.
pub fn rel_get(vol: &Tensor3, d: usize, pd: usize, pu: usize, pv: usize) -> (r: u32)
    requires
        vol.wf(),
        d < 3,
        rel_in(vol, d as int, pd as int, pu as int, pv as int),
    ensures
        r == rel_block(vol, d as int, pd as int, pu as int, pv as int),
        ({
            let c = cell_of(d as int, pd as int, pu as int, pv as int);
            0 <= vol.index(c.0, c.1, c.2) < vol.data@.len()
        }),
{
    if d == 0 {
        vol.get(pd, pu, pv)
    } else if d == 1 {
        vol.get(pv, pd, pu)
    } else {
        vol.get(pu, pv, pd)
    }
}

/// Which way the face between `b0` and `b1` looks; see `face_dir`.
pub fn get_face_dir(reg: &Registry, b0: u32, b1: u32, dir: usize) -> (r: i32)
    requires
        (b0 as int) < reg.blocks@.len(),
        (b1 as int) < reg.blocks@.len(),
        dir + 1 < 6,
    ensures
        r as int == face_dir(reg.blocks@, b0, b1, dir as int),
{
    if b0 == b1 {
        return 0;
    }
    let k0 = reg.blocks[b0 as usize];
    let k1 = reg.blocks[b1 as usize];
    if k0.opaque && k1.opaque {
        return 0;
    }
    if k0.opaque {
        return 1;
    }
    if k1.opaque {
        return -1;
    }
    let m0 = k0.facets[dir];
    let m1 = k1.facets[dir + 1];
    if m0 == m1 {
        0
    } else if m0 == NO_MATERIAL {
        -1
    } else if m1 == NO_MATERIAL {
        1
    } else {
        0
    }
}

fn solid(vol: &Tensor3, reg: &Registry, d: usize, pd: usize, pu: usize, pv: usize) -> (r: bool)
    requires
        ready(vol, reg),
        d < 3,
        rel_in(vol, d as int, pd as int, pu as int, pv as int),
    ensures
        r == solid_at(vol, reg.blocks@, d as int, pd as int, pu as int, pv as int),
{
    let b = rel_get(vol, d, pd, pu, pv);
    proof {
        let c = cell_of(d as int, pd as int, pu as int, pv as int);
        assert(vol.data@[vol.index(c.0, c.1, c.2)] == b);
        assert((b as int) < reg.blocks@.len());
    }
    reg.blocks[b as usize].solid
}

/// The packed occlusion byte of the face seen from cell `(pd, pu, pv)`; see
/// `ao_code`. The cell must not lie on the border along either tangent axis.
pub fn pack_ao_mask(vol: &Tensor3, reg: &Registry, d: usize, pd: usize, pu: usize, pv: usize) -> (r: i64)
    requires
        ready(vol, reg),
        d < 3,
        pd < extent(vol, d as int),
        1 <= pu && pu + 1 < extent(vol, axis_u(d as int)),
        1 <= pv && pv + 1 < extent(vol, axis_v(d as int)),
    ensures
        r as int == ao_code(vol, reg.blocks@, d as int, pd as int, pu as int, pv as int),
        0 <= r < 256,
{
    let mut a00: i64 = 0;
    let mut a01: i64 = 0;
    let mut a10: i64 = 0;
    let mut a11: i64 = 0;
    if solid(vol, reg, d, pd, pu + 1, pv) {
        a10 += 1;
        a11 += 1;
    }
    if solid(vol, reg, d, pd, pu - 1, pv) {
        a00 += 1;
        a01 += 1;
    }
    if solid(vol, reg, d, pd, pu, pv + 1) {
        a01 += 1;
        a11 += 1;
    }
    if solid(vol, reg, d, pd, pu, pv - 1) {
        a00 += 1;
        a10 += 1;
    }
    if a00 == 0 && solid(vol, reg, d, pd, pu - 1, pv - 1) {
        a00 += 1;
    }
    if a01 == 0 && solid(vol, reg, d, pd, pu - 1, pv + 1) {
        a01 += 1;
    }
    if a10 == 0 && solid(vol, reg, d, pd, pu + 1, pv - 1) {
        a10 += 1;
    }
    if a11 == 0 && solid(vol, reg, d, pd, pu + 1, pv + 1) {
        a11 += 1;
    }
    a00 + 4 * a10 + 16 * a11 + 64 * a01
}

/// The mask code of plane cell `(a, b)` in layer `k` of the sweep along `d`;
/// see `mask_code`.
pub fn mask_at(vol: &Tensor3, reg: &Registry, d: usize, k: usize, a: usize, b: usize) -> (r: i64)
    requires
        ready(vol, reg),
        plane_cell_in(vol, d as int, k as int, a as int, b as int),
    ensures
        r as int == mask_code(vol, reg.blocks@, d as int, k as int, a as int, b as int),
{
    let dir = 2 * d;
    let b0 = rel_get(vol, d, k, a + 1, b + 1);
    let b1 = rel_get(vol, d, k + 1, a + 1, b + 1);
    proof {
        let c0 = cell_of(d as int, k as int, a + 1, b + 1);
        let c1 = cell_of(d as int, k + 1, a + 1, b + 1);
        assert(vol.data@[vol.index(c0.0, c0.1, c0.2)] == b0);
        assert(vol.data@[vol.index(c1.0, c1.1, c1.2)] == b1);
        assert((b0 as int) < reg.blocks@.len());
        assert((b1 as int) < reg.blocks@.len());
    }
    let f = get_face_dir(reg, b0, b1, dir);
    if f == 0 {
        0
    } else if f > 0 {
        let m = reg.blocks[b0 as usize].facets[dir] as i64;
        m * 256 + pack_ao_mask(vol, reg, d, k + 1, a + 1, b + 1)
    } else {
        let m = reg.blocks[b1 as usize].facets[dir + 1] as i64;
        -m * 256 + pack_ao_mask(vol, reg, d, k, a + 1, b + 1)
    }
}

} // verus!
