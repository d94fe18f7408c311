use vstd::prelude::*;
use vstd::arithmetic::div_mod::{lemma_fundamental_div_mod, lemma_fundamental_div_mod_converse};
use crate::catalog::Facet;
use crate::classify::cell_of;
use crate::merge::Quad;

verus! {

/// Vertex buffers for a list of quads: four vertices per quad, so 12
/// position, 12 normal and 12 texture coordinates, 4 occlusion levels and
/// 6 triangle indices per quad, plus its facet id.
pub struct Geometry {
    pub quad_facets: Vec<u64>,
    pub positions: Vec<i64>,
    pub normals: Vec<i64>,
    pub uvws: Vec<i64>,
    pub ao: Vec<u8>,
    pub indices: Vec<u64>,
}

/// The facet id of a mask code: the magnitude of its part above the low byte.
pub open spec fn code_facet(c: i64) -> int {
    let q = c as int / 256;
    if q < 0 { -q } else { q }
}

/// The occlusion byte of a mask code.
pub open spec fn code_ao(c: i64) -> int {
    c as int % 256
}

/// The direction a quad faces along its axis.
pub open spec fn code_sign(c: i64) -> int {
    if c > 0 { 1 } else { -1 }
}

/// The occlusion level of vertex `i` (0 to 3) of a quad with mask code `c`.
pub open spec fn level(c: i64, i: int) -> int {
    let a = code_ao(c);
    if i == 0 {
        a % 4
    } else if i == 1 {
        (a / 4) % 4
    } else if i == 2 {
        (a / 16) % 4
    } else {
        (a / 64) % 4
    }
}

/// Which diagonal splits the quad, from the levels of its four vertices
/// `a00, a10, a11, a01`.
pub open spec fn triangle_hint(a00: int, a10: int, a11: int, a01: int) -> bool {
    if a00 == a11 {
        if a10 == a01 { a10 == 3 } else { true }
    } else {
        if a10 == a01 { false } else { a00 + a11 > a10 + a01 }
    }
}

/// A quad's values fit the vertex buffers: each vertex coordinate, at
/// most the quad's far corner, is at most `i64::MAX`.
pub open spec fn quad_fits(q: Quad) -> bool {
    &&& q.axis < 3
    &&& q.layer <= i64::MAX
    &&& q.u + q.w <= i64::MAX
    &&& q.v + q.h <= i64::MAX
}

/// The three coordinates of vertex `i` (0 to 3) of a quad, in the frame of
/// the volume's interior, whose first interior cell spans the unit cube at
/// the origin: the quad's layer lies at coordinate `layer` along its axis,
/// its origin at `(u, v)` on the tangent axes, and the vertices go round it
/// by `w` along the first tangent axis, then `h` along the second.
pub open spec fn corner(q: Quad, i: int) -> Seq<i64> {
    let du = if i == 1 || i == 2 { q.w as int } else { 0 };
    let dv = if i == 2 || i == 3 { q.h as int } else { 0 };
    let c = cell_of(q.axis as int, q.layer as int, q.u + du, q.v + dv);
    seq![c.0 as i64, c.1 as i64, c.2 as i64]
}

pub open spec fn quad_positions(q: Quad) -> Seq<i64> {
    corner(q, 0) + corner(q, 1) + corner(q, 2) + corner(q, 3)
}

/// The unit normal along the quad's axis, signed by its direction, at each vertex.
pub open spec fn quad_normals(q: Quad) -> Seq<i64> {
    let c = cell_of(q.axis as int, code_sign(q.code), 0, 0);
    let n = seq![c.0 as i64, c.1 as i64, c.2 as i64];
    n + n + n + n
}

/// The texture coordinates of the four vertices, spanning the quad's two
/// extents with one of them signed by its direction; which pair of vertices
/// takes which extent depends on whether the axis is `z`. The third
/// coordinate of each vertex is the texture layer.
pub open spec fn quad_uvws(q: Quad, tex: i64) -> Seq<i64> {
    let w = q.w as int;
    let h = q.h as int;
    if q.axis == 2 {
        let a = if code_sign(q.code) > 0 { -w } else { w };
        seq![0, h as i64, tex, a as i64, h as i64, tex, a as i64, 0, tex, 0, 0, tex]
    } else {
        let b = if code_sign(q.code) > 0 { h } else { -h };
        seq![0, w as i64, tex, 0, 0, tex, b as i64, 0, tex, b as i64, w as i64, tex]
    }
}

pub open spec fn quad_ao(q: Quad) -> Seq<u8> {
    seq![level(q.code, 0) as u8, level(q.code, 1) as u8, level(q.code, 2) as u8, level(q.code, 3) as u8]
}

/// The order in which the two triangles of a quad take its four vertices.
pub open spec fn index_offsets(positive: bool, hint: bool) -> Seq<int> {
    if positive {
        if hint { seq![0, 2, 1, 0, 3, 2] } else { seq![3, 1, 0, 3, 2, 1] }
    } else {
        if hint { seq![0, 1, 2, 0, 2, 3] } else { seq![1, 2, 3, 0, 1, 3] }
    }
}

/// The six triangle indices of a quad whose first vertex is `base`.
pub open spec fn quad_indices(q: Quad, base: int) -> Seq<u64> {
    let hint = triangle_hint(level(q.code, 0), level(q.code, 1), level(q.code, 2), level(q.code, 3));
    let o = index_offsets(q.code > 0, hint);
    Seq::new(6, |i: int| (base + o[i]) as u64)
}

/// The texture layer of facet `f`; the reserved facet without an entry samples layer 0.
pub open spec fn texture_of(facets: Seq<Facet>, f: int) -> int {
    if 0 <= f < facets.len() { facets[f].texture as int } else { 0 }
}

pub open spec fn quad_texture(facets: Seq<Facet>, q: Quad) -> i64 {
    texture_of(facets, code_facet(q.code)) as i64
}

pub open spec fn facets_of(qs: Seq<Quad>) -> Seq<u64>
    decreases qs.len(),
{
    if qs.len() == 0 { seq![] } else { facets_of(qs.drop_last()).push(code_facet(qs.last().code) as u64) }
}

pub open spec fn positions_of(qs: Seq<Quad>) -> Seq<i64>
    decreases qs.len(),
{
    if qs.len() == 0 { seq![] } else { positions_of(qs.drop_last()) + quad_positions(qs.last()) }
}

pub open spec fn normals_of(qs: Seq<Quad>) -> Seq<i64>
    decreases qs.len(),
{
    if qs.len() == 0 { seq![] } else { normals_of(qs.drop_last()) + quad_normals(qs.last()) }
}

pub open spec fn uvws_of(qs: Seq<Quad>, facets: Seq<Facet>) -> Seq<i64>
    decreases qs.len(),
{
    if qs.len() == 0 {
        seq![]
    } else {
        uvws_of(qs.drop_last(), facets) + quad_uvws(qs.last(), quad_texture(facets, qs.last()))
    }
}

pub open spec fn ao_of(qs: Seq<Quad>) -> Seq<u8>
    decreases qs.len(),
{
    if qs.len() == 0 { seq![] } else { ao_of(qs.drop_last()) + quad_ao(qs.last()) }
}

pub open spec fn indices_of(qs: Seq<Quad>) -> Seq<u64>
    decreases qs.len(),
{
    if qs.len() == 0 {
        seq![]
    } else {
        indices_of(qs.drop_last()) + quad_indices(qs.last(), 4 * (qs.len() - 1))
    }
}

/// The buffers hold exactly the vertices of `qs`, in order.
pub open spec fn geometry_of(g: &Geometry, qs: Seq<Quad>, facets: Seq<Facet>) -> bool {
    &&& g.quad_facets@ == facets_of(qs)
    &&& g.positions@ == positions_of(qs)
    &&& g.normals@ == normals_of(qs)
    &&& g.uvws@ == uvws_of(qs, facets)
    &&& g.ao@ == ao_of(qs)
    &&& g.indices@ == indices_of(qs)
}

/// Splits a mask code into its facet id and its occlusion byte.
pub fn decode(c: i64) -> (r: (u64, u64))
    ensures
        r.0 as int == code_facet(c),
        r.1 as int == code_ao(c),
{
    if c >= 0 {
        let u = c as u64;
        (u / 256, u % 256)
    } else {
        let m: u128 = (-(c as i128)) as u128;
        let q = m / 256;
        let r = m % 256;
        proof {
            lemma_fundamental_div_mod(m as int, 256);
        }
        if r == 0 {
            proof {
                lemma_fundamental_div_mod_converse(c as int, 256, -(q as int), 0);
            }
            (q as u64, 0)
        } else {
            proof {
                lemma_fundamental_div_mod_converse(c as int, 256, -(q as int) - 1, 256 - r);
            }
            ((q + 1) as u64, (256 - r) as u64)
        }
    }
}

fn push_corner(out: &mut Vec<i64>, q: Quad, i: usize)
    requires
        quad_fits(q),
        i < 4,
    ensures
        final(out)@ == old(out)@ + corner(q, i as int),
{
    let du: usize = if i == 1 || i == 2 { q.w } else { 0 };
    let dv: usize = if i == 2 || i == 3 { q.h } else { 0 };
    let pd = q.layer as i64;
    let pu = q.u as i64 + du as i64;
    let pv = q.v as i64 + dv as i64;
    let (x, y, z) = if q.axis == 0 {
        (pd, pu, pv)
    } else if q.axis == 1 {
        (pv, pd, pu)
    } else {
        (pu, pv, pd)
    };
    out.push(x);
    out.push(y);
    out.push(z);
    proof {
        assert(out@ =~= old(out)@ + corner(q, i as int));
    }
}

fn push_seq6(out: &mut Vec<u64>, base: u64, o: [u64; 6])
    requires
        base + 3 <= u64::MAX,
        forall|i: int| 0 <= i < 6 ==> o[i] <= 3,
    ensures
        final(out)@ == old(out)@ + Seq::new(6, |i: int| (base + o[i]) as u64),
{
    let mut i: usize = 0;
    while i < 6
        invariant
            i <= 6,
            base + 3 <= u64::MAX,
            forall|j: int| 0 <= j < 6 ==> o[j] <= 3,
            out@ == old(out)@ + Seq::new(i as nat, |j: int| (base + o[j]) as u64),
        decreases 6 - i,
    {
        out.push(base + o[i]);
        i += 1;
        proof {
            assert(out@ =~= old(out)@ + Seq::new(i as nat, |j: int| (base + o[j]) as u64));
        }
    }
}

fn push_normals(out: &mut Vec<i64>, q: Quad)
    requires
        quad_fits(q),
    ensures
        final(out)@ == old(out)@ + quad_normals(q),
{
    let sign: i64 = if q.code > 0 { 1 } else { -1 };
    let (nx, ny, nz): (i64, i64, i64) = if q.axis == 0 {
        (sign, 0, 0)
    } else if q.axis == 1 {
        (0, sign, 0)
    } else {
        (0, 0, sign)
    };
    out.push(nx); out.push(ny); out.push(nz);
    out.push(nx); out.push(ny); out.push(nz);
    out.push(nx); out.push(ny); out.push(nz);
    out.push(nx); out.push(ny); out.push(nz);
    proof {
        assert(out@ =~= old(out)@ + quad_normals(q));
    }
}

fn push_uvws(out: &mut Vec<i64>, q: Quad, tex: i64)
    requires
        quad_fits(q),
    ensures
        final(out)@ == old(out)@ + quad_uvws(q, tex),
{
    let w = q.w as i64;
    let h = q.h as i64;
    if q.axis == 2 {
        let a = if q.code > 0 { -w } else { w };
        out.push(0); out.push(h); out.push(tex);
        out.push(a); out.push(h); out.push(tex);
        out.push(a); out.push(0); out.push(tex);
        out.push(0); out.push(0); out.push(tex);
    } else {
        let b = if q.code > 0 { h } else { -h };
        out.push(0); out.push(w); out.push(tex);
        out.push(0); out.push(0); out.push(tex);
        out.push(b); out.push(0); out.push(tex);
        out.push(b); out.push(w); out.push(tex);
    }
    proof {
        assert(out@ =~= old(out)@ + quad_uvws(q, tex));
    }
}

fn push_ao(out: &mut Vec<u8>, q: Quad, ao: u64)
    requires
        ao as int == code_ao(q.code),
    ensures
        final(out)@ == old(out)@ + quad_ao(q),
{
    out.push((ao % 4) as u8);
    out.push(((ao / 4) % 4) as u8);
    out.push(((ao / 16) % 4) as u8);
    out.push(((ao / 64) % 4) as u8);
    proof {
        assert(out@ =~= old(out)@ + quad_ao(q));
    }
}

fn push_indices(out: &mut Vec<u64>, q: Quad, ao: u64, base: u64)
    requires
        ao as int == code_ao(q.code),
        base + 3 <= u64::MAX,
    ensures
        final(out)@ == old(out)@ + quad_indices(q, base as int),
{
    let a00 = ao % 4;
    let a10 = (ao / 4) % 4;
    let a11 = (ao / 16) % 4;
    let a01 = (ao / 64) % 4;
    let hint = if a00 == a11 {
        if a10 == a01 { a10 == 3 } else { true }
    } else {
        if a10 == a01 { false } else { a00 + a11 > a10 + a01 }
    };
    assert(hint == triangle_hint(level(q.code, 0), level(q.code, 1), level(q.code, 2), level(q.code, 3)));
    let o: [u64; 6] = if q.code > 0 {
        if hint { [0, 2, 1, 0, 3, 2] } else { [3, 1, 0, 3, 2, 1] }
    } else {
        if hint { [0, 1, 2, 0, 2, 3] } else { [1, 2, 3, 0, 1, 3] }
    };
    push_seq6(out, base, o);
    proof {
        let spec_o = index_offsets(q.code > 0, hint);
        assert(forall|i: int| 0 <= i < 6 ==> o[i] as int == spec_o[i]);
        assert(Seq::new(6, |i: int| (base + o[i]) as u64) =~= quad_indices(q, base as int));
    }
}

/// Appends the vertices of one quad, the texture layer `tex` and the first
/// vertex index `base` given.
pub fn emit_quad(g: &mut Geometry, q: Quad, tex: i64, base: u64)
    requires
        quad_fits(q),
        base + 3 <= u64::MAX,
    ensures
        final(g).quad_facets@ == old(g).quad_facets@.push(code_facet(q.code) as u64),
        final(g).positions@ == old(g).positions@ + quad_positions(q),
        final(g).normals@ == old(g).normals@ + quad_normals(q),
        final(g).uvws@ == old(g).uvws@ + quad_uvws(q, tex),
        final(g).ao@ == old(g).ao@ + quad_ao(q),
        final(g).indices@ == old(g).indices@ + quad_indices(q, base as int),
{
    let (facet, ao) = decode(q.code);
    g.quad_facets.push(facet);
    push_corner(&mut g.positions, q, 0);
    push_corner(&mut g.positions, q, 1);
    push_corner(&mut g.positions, q, 2);
    push_corner(&mut g.positions, q, 3);
    proof {
        assert(g.positions@ =~= old(g).positions@ + quad_positions(q));
    }
    push_normals(&mut g.normals, q);
    push_uvws(&mut g.uvws, q, tex);
    push_ao(&mut g.ao, q, ao);
    push_indices(&mut g.indices, q, ao, base);
}

/// Every quad fits the vertex buffers, and so does the count of vertices.
pub open spec fn all_fit(qs: Seq<Quad>) -> bool {
    &&& 4 * qs.len() + 3 <= u64::MAX
    &&& forall|i: int| 0 <= i < qs.len() ==> quad_fits(#[trigger] qs[i])
}

fn quad_fits_exec(q: &Quad) -> (r: bool)
    ensures
        r == quad_fits(*q),
{
    let lim: u64 = 0x7fff_ffff_ffff_ffff;
    q.axis < 3 && (q.layer as u64) <= lim && (q.u as u64) <= lim && (q.w as u64) <= lim - q.u as u64
        && (q.v as u64) <= lim && (q.h as u64) <= lim - q.v as u64
}

/// Whether the quads fit the vertex buffers.
pub fn check_fit(qs: &Vec<Quad>) -> (r: bool)
    ensures
        r == all_fit(qs@),
{
    if qs.len() as u64 > (u64::MAX - 3) / 4 {
        return false;
    }
    let mut i: usize = 0;
    while i < qs.len()
        invariant
            i <= qs@.len(),
            forall|j: int| 0 <= j < i ==> quad_fits(#[trigger] qs@[j]),
        decreases qs@.len() - i,
    {
        if !quad_fits_exec(&qs[i]) {
            return false;
        }
        i += 1;
    }
    true
}

/// The texture layer of facet `f`.
fn texture_at(facets: &Vec<Facet>, f: u64) -> (r: i64)
    ensures
        r == texture_of(facets@, f as int) as i64,
{
    if f < facets.len() as u64 {
        facets[f as usize].texture as i64
    } else {
        0
    }
}

/// The vertex buffers of a list of quads, with the texture layers taken
/// from the facet catalog.
pub fn emit_all(qs: &Vec<Quad>, facets: &Vec<Facet>) -> (g: Geometry)
    requires
        all_fit(qs@),
    ensures
        geometry_of(&g, qs@, facets@),
{
    let mut g = Geometry {
        quad_facets: Vec::new(),
        positions: Vec::new(),
        normals: Vec::new(),
        uvws: Vec::new(),
        ao: Vec::new(),
        indices: Vec::new(),
    };
    let mut i: usize = 0;
    proof {
        assert(qs@.subrange(0, 0) =~= Seq::<Quad>::empty());
    }
    while i < qs.len()
        invariant
            i <= qs@.len(),
            all_fit(qs@),
            geometry_of(&g, qs@.subrange(0, i as int), facets@),
        decreases qs@.len() - i,
    {
        let q = qs[i];
        let (facet, _) = decode(q.code);
        let tex = texture_at(facets, facet);
        emit_quad(&mut g, q, tex, 4 * i as u64);
        proof {
            let s = qs@.subrange(0, i + 1);
            assert(s.drop_last() =~= qs@.subrange(0, i as int));
            assert(s.last() == q);
        }
        i += 1;
    }
    proof {
        assert(qs@.subrange(0, qs@.len() as int) =~= qs@);
    }
    g
}

} // verus!
