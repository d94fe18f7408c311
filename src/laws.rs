use vstd::prelude::*;
use vstd::arithmetic::div_mod::{lemma_fundamental_div_mod, lemma_fundamental_div_mod_converse};
use crate::catalog::{Block, Facet};
use crate::emit::{geometry_of, Geometry};
use crate::classify::{cell_of, extent, face_dir, mask_code, rel_block};
use crate::merge::{clear_rect, grow_h, grow_w, lemma_grow_h_bound, lemma_grow_w_bound, scan, strip_eq, Quad};
use crate::mesher::{axes_upto, cols, has_interior, layer_quads, layers, layers_upto, mesh_quads, plane, rows};
use crate::volume::Tensor3;

verus! {

/// Plane cell `(x, y)` lies under quad `q`.
pub open spec fn covers(q: Quad, x: int, y: int) -> bool {
    q.u <= x < q.u + q.w && q.v <= y < q.v + q.h
}

proof fn lemma_grow_h_match(p: Seq<i64>, n: int, c: i64, h: int, lim: int, j: int)
    requires
        h <= j < h + grow_h(p, n, c, h, lim),
    ensures
        p[n + j] == c,
    decreases lim - h,
{
    if h < lim && p[n + h] == c {
        if j > h {
            lemma_grow_h_match(p, n, c, h + 1, lim, j);
        }
    }
}

proof fn lemma_grow_w_match(p: Seq<i64>, n: int, c: i64, h: int, lv: int, w: int, lim: int, t: int)
    requires
        w <= t < w + grow_w(p, n, c, h, lv, w, lim),
    ensures
        strip_eq(p, n + t * lv, c, h),
    decreases lim - w,
{
    if w < lim && strip_eq(p, n + w * lv, c, h) {
        if t > w {
            lemma_grow_w_match(p, n, c, h, lv, w + 1, lim, t);
        }
    }
}

/// Each quad of a scan lies inside the plane, has a nonzero code, and every
/// cell under it held that code in the plane scanned.
proof fn lemma_scan_sound(p: Seq<i64>, lu: int, lv: int, d: int, k: int, a: int, b: int)
    requires
        p.len() == lu * lv,
        0 <= lv <= usize::MAX,
        lu <= usize::MAX,
    ensures
        forall|i: int| #![trigger scan(p, lu, lv, d, k, a, b)[i]] 0 <= i < scan(p, lu, lv, d, k, a, b).len() ==> {
            let q = scan(p, lu, lv, d, k, a, b)[i];
            &&& q.axis == d as usize
            &&& q.layer == k as usize
            &&& q.code != 0
            &&& 1 <= q.w && q.u + q.w <= lu
            &&& 1 <= q.h && q.v + q.h <= lv
            &&& forall|x: int, y: int| covers(q, x, y) ==> p[x * lv + y] == q.code
        },
    decreases lu - a, (if b < lv { lv - b } else { 0 }),
{
    if a >= lu || a < 0 || b < 0 {
    } else if b >= lv {
        lemma_scan_sound(p, lu, lv, d, k, a + 1, 0);
        assert(scan(p, lu, lv, d, k, a, b) == scan(p, lu, lv, d, k, a + 1, 0));
    } else {
        let n = a * lv + b;
        let c = p[n];
        if c == 0 {
            lemma_scan_sound(p, lu, lv, d, k, a, b + 1);
            assert(scan(p, lu, lv, d, k, a, b) == scan(p, lu, lv, d, k, a, b + 1));
        } else {
            let h: int = (1 + grow_h(p, n, c, 1, lv - b)) as int;
            let w: int = (1 + grow_w(p, n, c, h, lv, 1, lu - a)) as int;
            let p2 = clear_rect(p, lv, a, b, w, h);
            lemma_grow_h_bound(p, n, c, 1, lv - b);
            lemma_grow_w_bound(p, n, c, h, lv, 1, lu - a);
            lemma_scan_sound(p2, lu, lv, d, k, a, b + h);
            let s = scan(p, lu, lv, d, k, a, b);
            let rest = scan(p2, lu, lv, d, k, a, b + h);
            let q = s[0];
            assert(s == seq![q] + rest);
            assert(q.u == a && q.v == b && q.w == w && q.h == h && q.code == c);
            assert forall|i: int| 1 <= i < s.len() implies #[trigger] s[i] == rest[i - 1] by {}
            assert forall|x: int, y: int| covers(q, x, y) implies p[x * lv + y] == q.code by {
                let t = x - a;
                let j = y - b;
                assert(x * lv + y == n + t * lv + j) by (nonlinear_arith)
                    requires n == a * lv + b, t == x - a, j == y - b;
                if t == 0 {
                    if j > 0 {
                        lemma_grow_h_match(p, n, c, 1, lv - b, j);
                    }
                    assert(n + 0 * lv + j == n + j);
                } else {
                    lemma_grow_w_match(p, n, c, h, lv, 1, lu - a, t);
                    assert(p[n + t * lv + j] == c);
                }
            }
            assert forall|i: int, x: int, y: int| 1 <= i < s.len() && #[trigger] covers(s[i], x, y)
                implies p[x * lv + y] == s[i].code by {
                let r = s[i];
                assert(r == rest[i - 1]);
                assert(p2[x * lv + y] == r.code);
                assert(0 <= x * lv + y < lu * lv) by (nonlinear_arith)
                    requires 0 <= x < lu, 0 <= y < lv;
            }
            assert forall|i: int| 0 <= i < s.len() implies {
                let r = #[trigger] s[i];
                &&& r.axis == d as usize
                &&& r.layer == k as usize
                &&& r.code != 0
                &&& 1 <= r.w && r.u + r.w <= lu
                &&& 1 <= r.h && r.v + r.h <= lv
            } by {
                if i > 0 {
                    assert(s[i] == rest[i - 1]);
                }
            }
        }
    }
}

/// What the mesh guarantees of one of its quads: it lies inside the sweep
/// it belongs to and every cell under it holds a visible face.
spec fn quad_ok(vol: &Tensor3, blocks: Seq<Block>, q: Quad) -> bool {
    &&& q.axis < 3
    &&& q.layer + 1 < extent(vol, q.axis as int)
    &&& 1 <= q.w && q.u + q.w <= rows(vol, q.axis as int)
    &&& 1 <= q.h && q.v + q.h <= cols(vol, q.axis as int)
    &&& forall|x: int, y: int| covers(q, x, y) ==> mask_code(vol, blocks, q.axis as int, q.layer as int, x, y) != 0
}

proof fn lemma_layer_sound(vol: &Tensor3, blocks: Seq<Block>, d: int, k: int)
    requires
        has_interior(vol),
        0 <= d < 3,
        0 <= k && k + 1 < extent(vol, d),
    ensures
        forall|i: int| 0 <= i < layer_quads(vol, blocks, d, k).len()
            ==> quad_ok(vol, blocks, #[trigger] layer_quads(vol, blocks, d, k)[i])
                && layer_quads(vol, blocks, d, k)[i].axis == d,
{
    let lu = rows(vol, d);
    let lv = cols(vol, d);
    let p = plane(vol, blocks, d, k);
    assert(lu * lv >= 0) by (nonlinear_arith)
        requires lu >= 1, lv >= 1;
    lemma_scan_sound(p, lu, lv, d, k, 0, 0);
    let s = layer_quads(vol, blocks, d, k);
    assert forall|i: int| 0 <= i < s.len() implies quad_ok(vol, blocks, #[trigger] s[i]) && s[i].axis == d by {
        let q = s[i];
        assert(q.axis == d && q.layer == k);
        assert forall|x: int, y: int| covers(q, x, y) implies mask_code(vol, blocks, d, k, x, y) != 0 by {
            lemma_fundamental_div_mod_converse(x * lv + y, lv, x, y);
            assert(0 <= x * lv + y < lu * lv) by (nonlinear_arith)
                requires 0 <= x < lu, 0 <= y < lv;
            assert(p[x * lv + y] == mask_code(vol, blocks, d, k, x, y) as i64);
        }
    }
}

proof fn lemma_layers_sound(vol: &Tensor3, blocks: Seq<Block>, d: int, n: int)
    requires
        has_interior(vol),
        0 <= d < 3,
        0 <= n <= layers(vol, d),
    ensures
        forall|i: int| 0 <= i < layers_upto(vol, blocks, d, n).len()
            ==> quad_ok(vol, blocks, #[trigger] layers_upto(vol, blocks, d, n)[i])
                && layers_upto(vol, blocks, d, n)[i].axis == d,
    decreases n,
{
    if n > 0 {
        lemma_layers_sound(vol, blocks, d, n - 1);
        lemma_layer_sound(vol, blocks, d, n - 1);
        let a = layers_upto(vol, blocks, d, n - 1);
        let b = layer_quads(vol, blocks, d, n - 1);
        let s = layers_upto(vol, blocks, d, n);
        assert(s == a + b);
        assert forall|i: int| 0 <= i < s.len() implies quad_ok(vol, blocks, #[trigger] s[i]) && s[i].axis == d by {
            if i < a.len() {
                assert(s[i] == a[i]);
            } else {
                assert(s[i] == b[i - a.len()]);
            }
        }
    }
}

proof fn lemma_axes_sound(vol: &Tensor3, blocks: Seq<Block>, n: int)
    requires
        has_interior(vol),
        0 <= n <= 3,
    ensures
        forall|i: int| 0 <= i < axes_upto(vol, blocks, n).len()
            ==> quad_ok(vol, blocks, #[trigger] axes_upto(vol, blocks, n)[i]),
    decreases n,
{
    if n > 0 {
        lemma_axes_sound(vol, blocks, n - 1);
        lemma_layers_sound(vol, blocks, n - 1, layers(vol, n - 1));
        let a = axes_upto(vol, blocks, n - 1);
        let b = layers_upto(vol, blocks, n - 1, layers(vol, n - 1));
        let s = axes_upto(vol, blocks, n);
        assert(s == a + b);
        assert forall|i: int| 0 <= i < s.len() implies quad_ok(vol, blocks, #[trigger] s[i]) by {
            if i < a.len() {
                assert(s[i] == a[i]);
            } else {
                assert(s[i] == b[i - a.len()]);
            }
        }
    }
}

/// Every cell under a quad of the mesh holds a visible face: the face
/// classifier finds a face between the two cells on either side of it.
pub proof fn mesh_covers_only_faces(vol: &Tensor3, blocks: Seq<Block>, i: int, x: int, y: int)
    requires
        0 <= i < mesh_quads(vol, blocks).len(),
        covers(mesh_quads(vol, blocks)[i], x, y),
    ensures
        ({
            let q = mesh_quads(vol, blocks)[i];
            let d = q.axis as int;
            let k = q.layer as int;
            &&& 0 <= d < 3
            &&& 0 <= k && k + 1 < extent(vol, d)
            &&& 1 <= x + 1 && x + 3 <= extent(vol, (d + 1) % 3)
            &&& 1 <= y + 1 && y + 3 <= extent(vol, (d + 2) % 3)
            &&& face_dir(blocks, rel_block(vol, d, k, x + 1, y + 1), rel_block(vol, d, k + 1, x + 1, y + 1), 2 * d) != 0
        }),
{
    if has_interior(vol) {
        lemma_axes_sound(vol, blocks, 3);
        let q = mesh_quads(vol, blocks)[i];
        assert(quad_ok(vol, blocks, q));
        assert(mask_code(vol, blocks, q.axis as int, q.layer as int, x, y) != 0);
    }
}

/// Two opaque blocks side by side have no quad on the face between them.
pub proof fn opaque_neighbours_share_no_quad(vol: &Tensor3, blocks: Seq<Block>, i: int, x: int, y: int)
    requires
        0 <= i < mesh_quads(vol, blocks).len(),
        ({
            let q = mesh_quads(vol, blocks)[i];
            let d = q.axis as int;
            let k = q.layer as int;
            &&& blocks[rel_block(vol, d, k, x + 1, y + 1) as int].opaque
            &&& blocks[rel_block(vol, d, k + 1, x + 1, y + 1) as int].opaque
        }),
    ensures
        !covers(mesh_quads(vol, blocks)[i], x, y),
{
    if covers(mesh_quads(vol, blocks)[i], x, y) {
        mesh_covers_only_faces(vol, blocks, i, x, y);
    }
}

/// Two transparent blocks side by side that show the same facet toward
/// each other have no quad on the face between them.
pub proof fn same_transparent_facets_share_no_quad(vol: &Tensor3, blocks: Seq<Block>, i: int, x: int, y: int)
    requires
        0 <= i < mesh_quads(vol, blocks).len(),
        ({
            let q = mesh_quads(vol, blocks)[i];
            let d = q.axis as int;
            let k = q.layer as int;
            let b0 = blocks[rel_block(vol, d, k, x + 1, y + 1) as int];
            let b1 = blocks[rel_block(vol, d, k + 1, x + 1, y + 1) as int];
            &&& !b0.opaque
            &&& !b1.opaque
            &&& b0.facets[2 * d] == b1.facets[2 * d + 1]
        }),
    ensures
        !covers(mesh_quads(vol, blocks)[i], x, y),
{
    if covers(mesh_quads(vol, blocks)[i], x, y) {
        mesh_covers_only_faces(vol, blocks, i, x, y);
    }
}

/// A volume whose cells all hold block 0 has no quads, whatever its shape.
pub proof fn empty_volume_has_no_quads(vol: &Tensor3, blocks: Seq<Block>)
    requires
        vol.wf(),
        forall|i: int| 0 <= i < vol.data@.len() ==> vol.data@[i] == 0,
    ensures
        mesh_quads(vol, blocks).len() == 0,
{
    if mesh_quads(vol, blocks).len() > 0 {
        lemma_axes_sound(vol, blocks, 3);
        let q = mesh_quads(vol, blocks)[0];
        assert(quad_ok(vol, blocks, q));
        let x = q.u as int;
        let y = q.v as int;
        assert(covers(q, x, y));
        mesh_covers_only_faces(vol, blocks, 0, x, y);
        let d = q.axis as int;
        let k = q.layer as int;
        let c0 = cell_of(d, k, x + 1, y + 1);
        let c1 = cell_of(d, k + 1, x + 1, y + 1);
        vol.lemma_index_in_bounds(c0.0, c0.1, c0.2);
        vol.lemma_index_in_bounds(c1.0, c1.1, c1.2);
        assert(rel_block(vol, d, k, x + 1, y + 1) == 0);
        assert(rel_block(vol, d, k + 1, x + 1, y + 1) == 0);
    }
}

/// A volume with an extent under 3 has no interior cell, and no quads,
/// whatever its cells hold.
pub proof fn degenerate_volume_has_no_quads(vol: &Tensor3, blocks: Seq<Block>)
    requires
        vol.shape[0] < 3 || vol.shape[1] < 3 || vol.shape[2] < 3,
    ensures
        mesh_quads(vol, blocks).len() == 0,
{
}

/// Meshing is a function of the volume and the catalogs: two sets of
/// buffers built from the same volume and catalogs are equal.
pub proof fn geometry_is_deterministic(g1: &Geometry, g2: &Geometry, vol: &Tensor3, blocks: Seq<Block>, facets: Seq<Facet>)
    requires
        geometry_of(g1, mesh_quads(vol, blocks), facets),
        geometry_of(g2, mesh_quads(vol, blocks), facets),
    ensures
        g1.quad_facets@ == g2.quad_facets@,
        g1.positions@ == g2.positions@,
        g1.normals@ == g2.normals@,
        g1.uvws@ == g2.uvws@,
        g1.ao@ == g2.ao@,
        g1.indices@ == g2.indices@,
{
}

/// Each nonzero cell at or after row `a`, column `b` lies under some quad of
/// the scan; the result is the index of one.
proof fn lemma_scan_complete(p: Seq<i64>, lu: int, lv: int, d: int, k: int, a: int, b: int, x: int, y: int) -> (i: int)
    requires
        p.len() == lu * lv,
        0 <= lv <= usize::MAX,
        lu <= usize::MAX,
        0 <= a && 0 <= b,
        0 <= x < lu && 0 <= y < lv,
        x > a || (x == a && y >= b),
        p[x * lv + y] != 0,
    ensures
        0 <= i < scan(p, lu, lv, d, k, a, b).len(),
        covers(scan(p, lu, lv, d, k, a, b)[i], x, y),
    decreases lu - a, (if b < lv { lv - b } else { 0 }),
{
    assert(0 <= x * lv + y < lu * lv) by (nonlinear_arith)
        requires 0 <= x < lu, 0 <= y < lv;
    if b >= lv {
        assert(scan(p, lu, lv, d, k, a, b) == scan(p, lu, lv, d, k, a + 1, 0));
        lemma_scan_complete(p, lu, lv, d, k, a + 1, 0, x, y)
    } else {
        let n = a * lv + b;
        let c = p[n];
        if c == 0 {
            assert(x * lv + y != n) by (nonlinear_arith)
                requires n == a * lv + b, x > a || (x == a && y >= b), c == 0, p[n] == c, p[x * lv + y] != 0;
            assert(x > a || (x == a && y >= b + 1)) by {
                if x == a && y == b {
                    assert(x * lv + y == n);
                }
            }
            assert(scan(p, lu, lv, d, k, a, b) == scan(p, lu, lv, d, k, a, b + 1));
            lemma_scan_complete(p, lu, lv, d, k, a, b + 1, x, y)
        } else {
            let h: int = (1 + grow_h(p, n, c, 1, lv - b)) as int;
            let w: int = (1 + grow_w(p, n, c, h, lv, 1, lu - a)) as int;
            let p2 = clear_rect(p, lv, a, b, w, h);
            lemma_grow_h_bound(p, n, c, 1, lv - b);
            lemma_grow_w_bound(p, n, c, h, lv, 1, lu - a);
            let s = scan(p, lu, lv, d, k, a, b);
            let rest = scan(p2, lu, lv, d, k, a, b + h);
            assert(s == seq![s[0]] + rest);
            assert(s[0].u == a && s[0].v == b && s[0].w == w && s[0].h == h);
            if a <= x < a + w && b <= y < b + h {
                0
            } else {
                lemma_fundamental_div_mod_converse(x * lv + y, lv, x, y);
                assert(p2[x * lv + y] == p[x * lv + y]);
                assert(x > a || (x == a && y >= b + h));
                let j = lemma_scan_complete(p2, lu, lv, d, k, a, b + h, x, y);
                assert(s[j + 1] == rest[j]);
                j + 1
            }
        }
    }
}

/// Every nonzero cell of a layer's mask plane lies under a quad of that layer.
proof fn lemma_layer_complete(vol: &Tensor3, blocks: Seq<Block>, d: int, k: int, x: int, y: int) -> (i: int)
    requires
        has_interior(vol),
        0 <= d < 3,
        0 <= k && k + 1 < extent(vol, d),
        0 <= x < rows(vol, d) && 0 <= y < cols(vol, d),
        mask_code(vol, blocks, d, k, x, y) as i64 != 0,
    ensures
        0 <= i < layer_quads(vol, blocks, d, k).len(),
        covers(layer_quads(vol, blocks, d, k)[i], x, y),
{
    let lu = rows(vol, d);
    let lv = cols(vol, d);
    let p = plane(vol, blocks, d, k);
    assert(lu * lv >= 0) by (nonlinear_arith)
        requires lu >= 1, lv >= 1;
    lemma_fundamental_div_mod_converse(x * lv + y, lv, x, y);
    assert(0 <= x * lv + y < lu * lv) by (nonlinear_arith)
        requires 0 <= x < lu, 0 <= y < lv;
    assert(p[x * lv + y] == mask_code(vol, blocks, d, k, x, y) as i64);
    lemma_scan_complete(p, lu, lv, d, k, 0, 0, x, y)
}

proof fn lemma_layers_complete(vol: &Tensor3, blocks: Seq<Block>, d: int, n: int, k: int, j: int) -> (i: int)
    requires
        0 <= k < n,
        0 <= j < layer_quads(vol, blocks, d, k).len(),
    ensures
        0 <= i < layers_upto(vol, blocks, d, n).len(),
        layers_upto(vol, blocks, d, n)[i] == layer_quads(vol, blocks, d, k)[j],
    decreases n,
{
    let a = layers_upto(vol, blocks, d, n - 1);
    let b = layer_quads(vol, blocks, d, n - 1);
    assert(layers_upto(vol, blocks, d, n) == a + b);
    if k == n - 1 {
        a.len() + j
    } else {
        lemma_layers_complete(vol, blocks, d, n - 1, k, j)
    }
}

proof fn lemma_axes_complete(vol: &Tensor3, blocks: Seq<Block>, n: int, d: int, j: int) -> (i: int)
    requires
        0 <= d < n,
        0 <= j < layers_upto(vol, blocks, d, layers(vol, d)).len(),
    ensures
        0 <= i < axes_upto(vol, blocks, n).len(),
        axes_upto(vol, blocks, n)[i] == layers_upto(vol, blocks, d, layers(vol, d))[j],
    decreases n,
{
    let a = axes_upto(vol, blocks, n - 1);
    let b = layers_upto(vol, blocks, n - 1, layers(vol, n - 1));
    assert(axes_upto(vol, blocks, n) == a + b);
    if d == n - 1 {
        a.len() + j
    } else {
        lemma_axes_complete(vol, blocks, n - 1, d, j)
    }
}

/// Every visible face of the volume lies under a quad of the mesh: where
/// the mask code of a cell of a sweep's layer is nonzero, some quad of that
/// sweep and layer covers the cell.
pub proof fn mesh_covers_every_face(vol: &Tensor3, blocks: Seq<Block>, d: int, k: int, x: int, y: int)
    requires
        has_interior(vol),
        0 <= d < 3,
        0 <= k && k + 1 < extent(vol, d),
        0 <= x < rows(vol, d) && 0 <= y < cols(vol, d),
        mask_code(vol, blocks, d, k, x, y) as i64 != 0,
    ensures
        exists|i: int| 0 <= i < mesh_quads(vol, blocks).len() && {
            let q = #[trigger] mesh_quads(vol, blocks)[i];
            &&& q.axis == d
            &&& q.layer == k
            &&& covers(q, x, y)
        },
{
    let j = lemma_layer_complete(vol, blocks, d, k, x, y);
    lemma_layer_sound(vol, blocks, d, k);
    let q = layer_quads(vol, blocks, d, k)[j];
    lemma_scan_sound(plane(vol, blocks, d, k), rows(vol, d), cols(vol, d), d, k, 0, 0);
    assert(q.axis == d && q.layer == k);
    let l = lemma_layers_complete(vol, blocks, d, layers(vol, d), k, j);
    let i = lemma_axes_complete(vol, blocks, 3, d, l);
    assert(mesh_quads(vol, blocks)[i] == q);
}

/// Two nonzero cells of a plane with different codes never lie under the
/// same quad: the merge emits at least two quads for such a plane.
pub proof fn differing_codes_split_plane(
    p: Seq<i64>,
    lu: int,
    lv: int,
    d: int,
    k: int,
    x0: int,
    y0: int,
    x1: int,
    y1: int,
)
    requires
        p.len() == lu * lv,
        0 <= lv <= usize::MAX,
        lu <= usize::MAX,
        0 <= x0 < lu && 0 <= y0 < lv,
        0 <= x1 < lu && 0 <= y1 < lv,
        p[x0 * lv + y0] != 0,
        p[x1 * lv + y1] != 0,
        p[x0 * lv + y0] != p[x1 * lv + y1],
    ensures
        scan(p, lu, lv, d, k, 0, 0).len() >= 2,
{
    lemma_scan_sound(p, lu, lv, d, k, 0, 0);
    let i0 = lemma_scan_complete(p, lu, lv, d, k, 0, 0, x0, y0);
    let i1 = lemma_scan_complete(p, lu, lv, d, k, 0, 0, x1, y1);
    let s = scan(p, lu, lv, d, k, 0, 0);
    assert(s[i0].code == p[x0 * lv + y0]);
    assert(s[i1].code == p[x1 * lv + y1]);
    assert(i0 != i1);
}

proof fn lemma_scan_zero(p: Seq<i64>, lu: int, lv: int, d: int, k: int, a: int, b: int)
    requires
        p.len() == lu * lv,
        0 <= lv,
        forall|i: int| 0 <= i < p.len() ==> p[i] == 0,
    ensures
        scan(p, lu, lv, d, k, a, b).len() == 0,
    decreases lu - a, (if b < lv { lv - b } else { 0 }),
{
    if a >= lu || a < 0 || b < 0 {
    } else if b >= lv {
        lemma_scan_zero(p, lu, lv, d, k, a + 1, 0);
    } else {
        assert(0 <= a * lv + b < lu * lv) by (nonlinear_arith)
            requires 0 <= a < lu, 0 <= b < lv;
        lemma_scan_zero(p, lu, lv, d, k, a, b + 1);
    }
}

proof fn lemma_grow_h_full(p: Seq<i64>, n: int, c: i64, h: int, lim: int)
    requires
        1 <= h <= lim,
        forall|j: int| 0 <= j < lim ==> #[trigger] p[n + j] == c,
    ensures
        h + grow_h(p, n, c, h, lim) == lim,
    decreases lim - h,
{
    if h < lim {
        lemma_grow_h_full(p, n, c, h + 1, lim);
    }
}

proof fn lemma_grow_w_full(p: Seq<i64>, c: i64, h: int, lv: int, w: int, lim: int)
    requires
        1 <= w <= lim,
        0 <= h <= lv,
        forall|t: int, j: int| 0 <= t < lim && 0 <= j < h ==> #[trigger] p[t * lv + j] == c,
    ensures
        w + grow_w(p, 0, c, h, lv, w, lim) == lim,
    decreases lim - w,
{
    if w < lim {
        assert(strip_eq(p, 0 + w * lv, c, h)) by {
            assert forall|x: int| 0 <= x < h implies #[trigger] p[0 + w * lv + x] == c by {
                assert(p[w * lv + x] == c);
            }
        }
        lemma_grow_w_full(p, c, h, lv, w + 1, lim);
    }
}

/// A plane whose cells all hold one nonzero code merges into a single quad
/// that covers the whole plane.
pub proof fn uniform_plane_is_one_quad(p: Seq<i64>, lu: int, lv: int, d: int, k: int, c: i64)
    requires
        1 <= lu <= usize::MAX,
        1 <= lv <= usize::MAX,
        p.len() == lu * lv,
        c != 0,
        forall|i: int| 0 <= i < p.len() ==> p[i] == c,
    ensures
        scan(p, lu, lv, d, k, 0, 0) == seq![Quad {
            axis: d as usize,
            layer: k as usize,
            u: 0,
            v: 0,
            w: lu as usize,
            h: lv as usize,
            code: c,
        }],
{
    assert(0 * lv + 0 == 0);
    assert forall|t: int, j: int| 0 <= t < lu && 0 <= j < lv implies #[trigger] p[t * lv + j] == c by {
        assert(0 <= t * lv + j < lu * lv) by (nonlinear_arith)
            requires 0 <= t < lu, 0 <= j < lv;
    }
    assert forall|j: int| 0 <= j < lv implies #[trigger] p[0 + j] == c by {
        assert(p[0 * lv + j] == c);
    }
    lemma_grow_h_full(p, 0, c, 1, lv);
    lemma_grow_w_full(p, c, lv, lv, 1, lu);
    let p2 = clear_rect(p, lv, 0, 0, lu, lv);
    assert forall|i: int| 0 <= i < p2.len() implies p2[i] == 0 by {
        lemma_fundamental_div_mod(i, lv);
        assert(i / lv < lu) by (nonlinear_arith)
            requires i == lv * (i / lv) + i % lv, 0 <= i % lv, i < lu * lv, lv >= 1;
        assert(0 <= i / lv) by (nonlinear_arith)
            requires i == lv * (i / lv) + i % lv, i % lv < lv, 0 <= i, lv >= 1;
    }
    lemma_scan_zero(p2, lu, lv, d, k, 0, lv);
    let s = scan(p, lu, lv, d, k, 0, 0);
    assert(s == seq![s[0]] + scan(p2, lu, lv, d, k, 0, lv));
    assert(s =~= seq![s[0]]);
}

} // verus!
