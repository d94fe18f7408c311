use vstd::prelude::*;
use vstd::arithmetic::div_mod::lemma_fundamental_div_mod_converse;
use crate::catalog::{Block, Registry};
use crate::classify::{axis_u, axis_v, extent, mask_at, mask_code, ready};
use crate::merge::{merge_plane, scan, Quad};
use crate::volume::Tensor3;

verus! {

/// Every extent is at least 3, so the volume has interior cells.
pub open spec fn has_interior(vol: &Tensor3) -> bool {
    vol.shape[0] >= 3 && vol.shape[1] >= 3 && vol.shape[2] >= 3
}

/// The number of plane rows of the sweep along `d`.
pub open spec fn rows(vol: &Tensor3, d: int) -> int {
    extent(vol, axis_u(d)) - 2
}

/// The number of plane columns of the sweep along `d`.
pub open spec fn cols(vol: &Tensor3, d: int) -> int {
    extent(vol, axis_v(d)) - 2
}

/// The number of face layers of the sweep along `d`: one between each two
/// neighbouring cells along `d`.
pub open spec fn layers(vol: &Tensor3, d: int) -> int {
    extent(vol, d) - 1
}

/// The mask plane of layer `k` of the sweep along `d`, row by row.
pub open spec fn plane(vol: &Tensor3, blocks: Seq<Block>, d: int, k: int) -> Seq<i64> {
    let lv = cols(vol, d);
    Seq::new(
        (rows(vol, d) * lv) as nat,
        |i: int| mask_code(vol, blocks, d, k, i / lv, i % lv) as i64,
    )
}

/// The quads of layer `k` of the sweep along `d`.
pub open spec fn layer_quads(vol: &Tensor3, blocks: Seq<Block>, d: int, k: int) -> Seq<Quad> {
    scan(plane(vol, blocks, d, k), rows(vol, d), cols(vol, d), d, k, 0, 0)
}

/// The quads of the first `k` layers of the sweep along `d`.
pub open spec fn layers_upto(vol: &Tensor3, blocks: Seq<Block>, d: int, k: int) -> Seq<Quad>
    decreases k,
{
    if k <= 0 {
        seq![]
    } else {
        layers_upto(vol, blocks, d, k - 1) + layer_quads(vol, blocks, d, k - 1)
    }
}

/// The quads of the sweeps along the first `d` axes.
pub open spec fn axes_upto(vol: &Tensor3, blocks: Seq<Block>, d: int) -> Seq<Quad>
    decreases d,
{
    if d <= 0 {
        seq![]
    } else {
        axes_upto(vol, blocks, d - 1) + layers_upto(vol, blocks, d - 1, layers(vol, d - 1))
    }
}

/// All quads of a volume: the three sweeps in axis order, layers in order,
/// or none where the volume has no interior cell.
pub open spec fn mesh_quads(vol: &Tensor3, blocks: Seq<Block>) -> Seq<Quad> {
    if has_interior(vol) {
        axes_upto(vol, blocks, 3)
    } else {
        seq![]
    }
}

/// The larger of two integers.
pub open spec fn larger(a: int, b: int) -> int {
    if a >= b { a } else { b }
}

/// The number of cells of a mask plane of the sweep along `d`.
pub open spec fn area(vol: &Tensor3, d: int) -> int {
    rows(vol, d) * cols(vol, d)
}

/// The largest plane of the sweeps along the first `n` axes.
pub open spec fn max_area_upto(vol: &Tensor3, n: int) -> int
    decreases n,
{
    if n <= 0 { 0 } else { larger(max_area_upto(vol, n - 1), area(vol, n - 1)) }
}

/// The largest plane of the three sweeps.
pub open spec fn max_area(vol: &Tensor3) -> int {
    max_area_upto(vol, 3)
}

/// Fills the first cells of `m` with the mask plane of layer `k` of the
/// sweep along `d`.
fn fill_plane(vol: &Tensor3, reg: &Registry, m: &mut Vec<i64>, d: usize, k: usize, lu: usize, lv: usize)
    requires
        ready(vol, reg),
        has_interior(vol),
        d < 3,
        k + 1 < extent(vol, d as int),
        lu == rows(vol, d as int),
        lv == cols(vol, d as int),
        old(m)@.len() >= lu * lv,
    ensures
        final(m)@.subrange(0, lu * lv) == plane(vol, reg.blocks@, d as int, k as int),
        final(m)@.len() == old(m)@.len(),
        forall|i: int| lu * lv <= i < old(m)@.len() ==> final(m)@[i] == old(m)@[i],
{
    let ghost m0 = m@;
    let ghost target = plane(vol, reg.blocks@, d as int, k as int);
    let len = m.len();
    let mut iu: usize = 0;
    while iu < lu
        invariant
            ready(vol, reg),
            d < 3,
            k + 1 < extent(vol, d as int),
            lu == rows(vol, d as int),
            lv == cols(vol, d as int),
            iu <= lu,
            m@.len() == len,
            len == m0.len(),
            len >= lu * lv,
            target == plane(vol, reg.blocks@, d as int, k as int),
            forall|i: int| 0 <= i < iu * lv ==> m@[i] == target[i],
            forall|i: int| lu * lv <= i < len ==> m@[i] == m0[i],
        decreases lu - iu,
    {
        let mut iv: usize = 0;
        proof {
            assert(iu * lv + lv <= lu * lv) by (nonlinear_arith)
                requires iu + 1 <= lu,
            {}
            assert(iu * lv + lv == (iu + 1) * lv) by (nonlinear_arith);
            assert(iu * lv >= 0) by (nonlinear_arith);
        }
        while iv < lv
            invariant
                ready(vol, reg),
                d < 3,
                k + 1 < extent(vol, d as int),
                lu == rows(vol, d as int),
                lv == cols(vol, d as int),
                iu < lu,
                iv <= lv,
                iu * lv + lv <= lu * lv,
                iu * lv >= 0,
                m@.len() == len,
                len == m0.len(),
                len >= lu * lv,
                target == plane(vol, reg.blocks@, d as int, k as int),
                forall|i: int| 0 <= i < iu * lv + iv ==> m@[i] == target[i],
                forall|i: int| lu * lv <= i < len ==> m@[i] == m0[i],
            decreases lv - iv,
        {
            let n = iu * lv + iv;
            let c = mask_at(vol, reg, d, k, iu, iv);
            proof {
                lemma_fundamental_div_mod_converse(n as int, lv as int, iu as int, iv as int);
            }
            m.set(n, c);
            iv += 1;
        }
        iu += 1;
    }
    proof {
        assert(m@.subrange(0, lu * lv) =~= target);
    }
}

proof fn lemma_area_fits(s0: int, s1: int, s2: int, lu: int, lv: int)
    by (nonlinear_arith)
    requires
        s0 >= 3,
        s1 >= 3,
        s2 >= 3,
        (lu == s1 - 2 && lv == s2 - 2) || (lu == s2 - 2 && lv == s0 - 2) || (lu == s0 - 2 && lv == s1 - 2),
    ensures
        0 <= lu * lv <= s0 * s1 * s2,
{
}

/// Appends the quads of every layer of the sweep along `d`.
#[verifier::rlimit(50)]
fn mesh_axis(mask_data: &mut Vec<i64>, registry: &Registry, voxels: &Tensor3, d: usize, out: &mut Vec<Quad>)
    requires
        ready(voxels, registry),
        has_interior(voxels),
        d < 3,
    ensures
        final(out)@ == old(out)@ + layers_upto(voxels, registry.blocks@, d as int, layers(voxels, d as int)),
        final(mask_data)@.len() == larger(old(mask_data)@.len() as int, area(voxels, d as int)),
        forall|i: int| 0 <= i < area(voxels, d as int) ==> final(mask_data)@[i] == 0,
        forall|i: int| area(voxels, d as int) <= i < old(mask_data)@.len() ==> final(mask_data)@[i] == old(mask_data)@[i],
{
    let ghost m0 = mask_data@;
    let (u, v): (usize, usize) = if d == 0 {
        (1, 2)
    } else if d == 1 {
        (2, 0)
    } else {
        (0, 1)
    };
    let total = voxels.data.len();
    let lu = voxels.shape[u] - 2;
    let lv = voxels.shape[v] - 2;
    let ld = voxels.shape[d] - 1;
    proof {
        lemma_area_fits(voxels.shape[0] as int, voxels.shape[1] as int, voxels.shape[2] as int, lu as int, lv as int);
    }
    let area = lu * lv;
    if mask_data.len() < area {
        mask_data.resize(area, 0);
    }
    let ghost m1 = mask_data@;
    let len = mask_data.len();
    proof {
        assert(forall|i: int| area <= i < m0.len() ==> m1[i] == m0[i]);
    }
    let ghost out0 = out@;
    let mut k: usize = 0;
    while k < ld
        invariant
            ready(voxels, registry),
            has_interior(voxels),
            d < 3,
            lu == rows(voxels, d as int),
            lv == cols(voxels, d as int),
            ld == layers(voxels, d as int),
            k <= ld,
            1 <= ld,
            area == lu * lv,
            len == larger(m0.len() as int, lu * lv),
            mask_data@.len() == len,
            k > 0 ==> forall|i: int| 0 <= i < area ==> mask_data@[i] == 0,
            forall|i: int| area <= i < m0.len() ==> mask_data@[i] == m0[i],
            out@ == out0 + layers_upto(voxels, registry.blocks@, d as int, k as int),
        decreases ld - k,
    {
        fill_plane(voxels, registry, mask_data, d, k, lu, lv);
        merge_plane(mask_data, lu, lv, d, k, out);
        proof {
            let l = layers_upto(voxels, registry.blocks@, d as int, k as int);
            let q = layer_quads(voxels, registry.blocks@, d as int, k as int);
            assert(out0 + l + q == out0 + (l + q));
        }
        k += 1;
    }
}

/// Every extent is at least 2: the volume is not degenerate.
pub open spec fn not_degenerate(vol: &Tensor3) -> bool {
    vol.shape[0] >= 2 && vol.shape[1] >= 2 && vol.shape[2] >= 2
}

/// The scratch buffer after meshing `vol`, from `m0` before: untouched
/// where an extent is under 2; else grown to hold the largest plane, zero
/// over that length and as it was past it.
pub open spec fn mask_after(vol: &Tensor3, m0: Seq<i64>, m1: Seq<i64>) -> bool {
    if !not_degenerate(vol) {
        m1 == m0
    } else {
        let a = max_area(vol);
        &&& m1.len() == larger(m0.len() as int, a)
        &&& forall|i: int| 0 <= i < m1.len() ==> m1[i] == (if i < a { 0 } else { m0[i] })
    }
}

/// The largest of the three sweeps' planes.
fn largest_area(vol: &Tensor3) -> (r: usize)
    requires
        vol.wf(),
        not_degenerate(vol),
    ensures
        r as int == max_area(vol),
{
    let s0 = vol.shape[0];
    let s1 = vol.shape[1];
    let s2 = vol.shape[2];
    let n = vol.data.len();
    proof {
        assert((s1 - 2) * (s2 - 2) <= s0 * s1 * s2 && 0 <= (s1 - 2) * (s2 - 2)) by (nonlinear_arith)
            requires s0 >= 2, s1 >= 2, s2 >= 2;
        assert((s2 - 2) * (s0 - 2) <= s0 * s1 * s2 && 0 <= (s2 - 2) * (s0 - 2)) by (nonlinear_arith)
            requires s0 >= 2, s1 >= 2, s2 >= 2;
        assert((s0 - 2) * (s1 - 2) <= s0 * s1 * s2 && 0 <= (s0 - 2) * (s1 - 2)) by (nonlinear_arith)
            requires s0 >= 2, s1 >= 2, s2 >= 2;
    }
    let a0 = (s1 - 2) * (s2 - 2);
    let a1 = (s2 - 2) * (s0 - 2);
    let a2 = (s0 - 2) * (s1 - 2);
    let m01 = if a0 >= a1 { a0 } else { a1 };
    proof {
        reveal_with_fuel(max_area_upto, 4);
        assert(area(vol, 0) == a0 as int);
        assert(area(vol, 1) == a1 as int);
        assert(area(vol, 2) == a2 as int);
    }
    if m01 >= a2 { m01 } else { a2 }
}

/// Grows `m` to at least `n` cells and sets its first `n` cells to zero,
/// leaving the cells past them as they were.
fn clear_prefix(m: &mut Vec<i64>, n: usize)
    ensures
        final(m)@.len() == larger(old(m)@.len() as int, n as int),
        forall|i: int| 0 <= i < final(m)@.len() ==> final(m)@[i] == (if i < n { 0 } else { old(m)@[i] }),
{
    let ghost m0 = m@;
    if m.len() < n {
        m.resize(n, 0);
    }
    let len = m.len();
    let mut i: usize = 0;
    while i < n
        invariant
            i <= n,
            n <= len,
            len == larger(m0.len() as int, n as int),
            m@.len() == len,
            forall|j: int| 0 <= j < len ==> m@[j] == (if j < i { 0 } else if j < m0.len() { m0[j] } else { 0 }),
        decreases n - i,
    {
        m.set(i, 0);
        i += 1;
    }
}

/// Meshes the volume: for each axis in turn and each layer along it, fills
/// the scratch buffer with the layer's mask plane and merges it greedily.
/// The buffer's earlier contents do not matter; it only grows.
pub fn mesh_impl(mask_data: &mut Vec<i64>, registry: &Registry, voxels: &Tensor3) -> (r: Vec<Quad>)
    requires
        not_degenerate(voxels) ==> voxels.wf(),
        has_interior(voxels) ==> ready(voxels, registry),
    ensures
        r@ == mesh_quads(voxels, registry.blocks@),
        mask_after(voxels, old(mask_data)@, final(mask_data)@),
{
    let ghost m0 = mask_data@;
    let mut out: Vec<Quad> = Vec::new();
    if voxels.shape[0] < 2 || voxels.shape[1] < 2 || voxels.shape[2] < 2 {
        return out;
    }
    if voxels.shape[0] < 3 || voxels.shape[1] < 3 || voxels.shape[2] < 3 {
        let a = largest_area(voxels);
        clear_prefix(mask_data, a);
        return out;
    }
    let mut d: usize = 0;
    while d < 3
        invariant
            ready(voxels, registry),
            has_interior(voxels),
            d <= 3,
            out@ == axes_upto(voxels, registry.blocks@, d as int),
            mask_data@.len() == larger(m0.len() as int, max_area_upto(voxels, d as int)),
            forall|i: int| 0 <= i < mask_data@.len() ==> mask_data@[i] == (if i < max_area_upto(voxels, d as int) { 0 } else { m0[i] }),
        decreases 3 - d,
    {
        mesh_axis(mask_data, registry, voxels, d, &mut out);
        d += 1;
    }
    out
}

} // verus!
