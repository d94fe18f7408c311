use vstd::prelude::*;
use crate::catalog::{Block, Facet, Registry, NO_MATERIAL};
use crate::classify::ready;
use crate::emit::{all_fit, check_fit, emit_all, geometry_of, Geometry};
use crate::merge::Quad;
use crate::mesher::{mask_after, mesh_impl, mesh_quads};
use crate::volume::{MeshError, Tensor3};

verus! {

/// A cell that owns one value and lends it out through ordinary borrows.
pub struct RacyCell<T>(pub T);

impl<T> RacyCell<T> {
    pub fn new(value: T) -> (r: RacyCell<T>)
        ensures
            r.0 == value,
    {
        RacyCell(value)
    }

    pub fn get(&self) -> (r: &T)
        ensures
            *r == self.0,
    {
        &self.0
    }

    pub fn get_mut(&mut self) -> (r: &mut T)
        ensures
            *r == old(self).0,
            final(self).0 == *final(r),
    {
        &mut self.0
    }
}

/// The state of one meshing session: the catalogs, the current volume and
/// the scratch buffer that each mesh call reuses.
pub struct Mesher {
    pub registry: Registry,
    pub voxels: Tensor3,
    pub mask_data: RacyCell<Vec<i64>>,
}

/// The volume and both catalogs are consistent: a mesh call needs nothing more.
pub open spec fn valid(vol: &Tensor3, reg: &Registry) -> bool {
    ready(vol, reg) && reg.facets_known()
}

/// The error that `validate` reports for the volume and catalogs, if any.
pub open spec fn validation(vol: &Tensor3, reg: &Registry) -> Result<(), MeshError> {
    if !vol.wf() {
        Err(MeshError::InvalidVolumeShape)
    } else if !ready(vol, reg) {
        Err(MeshError::UnknownBlockId)
    } else if !reg.facets_known() {
        Err(MeshError::UnknownFacetId)
    } else {
        Ok(())
    }
}

fn shape_ok(vol: &Tensor3) -> (r: bool)
    ensures
        r == vol.wf(),
{
    let s0 = vol.shape[0];
    let s1 = vol.shape[1];
    let s2 = vol.shape[2];
    let s01 = match s0.checked_mul(s1) {
        Some(p) => p,
        None => return false,
    };
    let n = match s01.checked_mul(s2) {
        Some(p) => p,
        None => {
            // the data's length fits in usize, so it cannot match
            let _len = vol.data.len();
            return false;
        },
    };
    vol.data.len() == n && vol.stride[0] == 1 && vol.stride[1] == s0 && vol.stride[2] == s01
}

fn blocks_known(vol: &Tensor3, reg: &Registry) -> (r: bool)
    ensures
        r == forall|i: int| 0 <= i < vol.data@.len() ==> (#[trigger] vol.data@[i] as int) < reg.blocks@.len(),
{
    let n = reg.blocks.len();
    let mut i: usize = 0;
    while i < vol.data.len()
        invariant
            i <= vol.data@.len(),
            n == reg.blocks@.len(),
            forall|j: int| 0 <= j < i ==> (#[trigger] vol.data@[j] as int) < reg.blocks@.len(),
        decreases vol.data@.len() - i,
    {
        if vol.data[i] as usize >= n {
            return false;
        }
        i += 1;
    }
    true
}

fn facets_known(reg: &Registry) -> (r: bool)
    ensures
        r == reg.facets_known(),
{
    let n = reg.facets.len();
    let mut b: usize = 0;
    while b < reg.blocks.len()
        invariant
            b <= reg.blocks@.len(),
            n == reg.facets@.len(),
            forall|x: int, i: int| 0 <= x < b && 0 <= i < 6 ==> {
                let f = #[trigger] reg.blocks@[x].facets[i];
                f == NO_MATERIAL || (f as int) < reg.facets@.len()
            },
        decreases reg.blocks@.len() - b,
    {
        let blk = reg.blocks[b];
        let mut i: usize = 0;
        while i < 6
            invariant
                i <= 6,
                b < reg.blocks@.len(),
                blk == reg.blocks@[b as int],
                n == reg.facets@.len(),
                forall|j: int| 0 <= j < i ==> {
                    let f = #[trigger] blk.facets[j];
                    f == NO_MATERIAL || (f as int) < reg.facets@.len()
                },
            decreases 6 - i,
        {
            let f = blk.facets[i];
            if f != NO_MATERIAL && f as usize >= n {
                assert(!reg.facets_known()) by {
                    assert(reg.blocks@[b as int].facets[i as int] == f);
                }
                return false;
            }
            i += 1;
        }
        b += 1;
    }
    true
}

/// Checks the volume's shape, then its block ids, then the blocks' facet ids.
pub fn validate(vol: &Tensor3, reg: &Registry) -> (r: Result<(), MeshError>)
    ensures
        r == validation(vol, reg),
        r is Ok <==> valid(vol, reg),
{
    if !shape_ok(vol) {
        return Err(MeshError::InvalidVolumeShape);
    }
    if !blocks_known(vol, reg) {
        return Err(MeshError::UnknownBlockId);
    }
    if !facets_known(reg) {
        return Err(MeshError::UnknownFacetId);
    }
    Ok(())
}

impl Mesher {
    /// A session with empty catalogs, an empty volume and an empty buffer.
    pub fn new() -> (r: Mesher)
        ensures
            r.registry.blocks@.len() == 0,
            r.registry.facets@.len() == 0,
            r.voxels.shape == [0usize, 0, 0],
            r.voxels.wf(),
            r.mask_data.0@.len() == 0,
    {
        Mesher { registry: Registry::new(), voxels: Tensor3::new(), mask_data: RacyCell::new(Vec::new()) }
    }

    /// The quads of the current volume, after validation.
    pub fn quads(&mut self) -> (r: Result<Vec<Quad>, MeshError>)
        ensures
            final(self).registry == old(self).registry,
            final(self).voxels == old(self).voxels,
            match r {
                Ok(q) => valid(&old(self).voxels, &old(self).registry)
                    && q@ == mesh_quads(&old(self).voxels, old(self).registry.blocks@)
                    && mask_after(&old(self).voxels, old(self).mask_data.0@, final(self).mask_data.0@),
                Err(e) => validation(&old(self).voxels, &old(self).registry) == Err::<(), MeshError>(e)
                    && final(self).mask_data == old(self).mask_data,
            },
    {
        match validate(&self.voxels, &self.registry) {
            Ok(()) => Ok(mesh_impl(self.mask_data.get_mut(), &self.registry, &self.voxels)),
            Err(e) => Err(e),
        }
    }
}

/// The vertex buffers of the current volume's quads, after validation.
pub fn mesh_geometry(ctx: &mut Mesher) -> (r: Result<Geometry, MeshError>)
    ensures
        final(ctx).registry == old(ctx).registry,
        final(ctx).voxels == old(ctx).voxels,
        match r {
            Ok(g) => valid(&old(ctx).voxels, &old(ctx).registry)
                && all_fit(mesh_quads(&old(ctx).voxels, old(ctx).registry.blocks@))
                && geometry_of(&g, mesh_quads(&old(ctx).voxels, old(ctx).registry.blocks@), old(ctx).registry.facets@)
                && mask_after(&old(ctx).voxels, old(ctx).mask_data.0@, final(ctx).mask_data.0@),
            Err(MeshError::GeometryTooLarge) => valid(&old(ctx).voxels, &old(ctx).registry)
                && !all_fit(mesh_quads(&old(ctx).voxels, old(ctx).registry.blocks@))
                && mask_after(&old(ctx).voxels, old(ctx).mask_data.0@, final(ctx).mask_data.0@),
            Err(e) => validation(&old(ctx).voxels, &old(ctx).registry) == Err::<(), MeshError>(e)
                && final(ctx).mask_data == old(ctx).mask_data,
        },
{
    let qs = match ctx.quads() {
        Ok(q) => q,
        Err(e) => return Err(e),
    };
    if !check_fit(&qs) {
        return Err(MeshError::GeometryTooLarge);
    }
    Ok(emit_all(&qs, &ctx.registry.facets))
}

/// Appends a block with the given facets, one per side in the order
/// `+x, -x, +y, -y, +z, -z`; its id is the number of blocks before it.
pub fn register_block(
    ctx: &mut Mesher,
    f0: u32,
    f1: u32,
    f2: u32,
    f3: u32,
    f4: u32,
    f5: u32,
    opaque: bool,
    solid: bool,
)
    ensures
        final(ctx).registry.blocks@ == old(ctx).registry.blocks@.push(
            Block { facets: [f0, f1, f2, f3, f4, f5], opaque, solid },
        ),
        final(ctx).registry.facets@ == old(ctx).registry.facets@,
        final(ctx).voxels == old(ctx).voxels,
        final(ctx).mask_data == old(ctx).mask_data,
{
    ctx.registry.add_block(Block { facets: [f0, f1, f2, f3, f4, f5], opaque, solid });
}

/// Appends a facet with the given RGBA channel bit patterns and texture
/// layer; its id is the number of facets before it.
pub fn register_facet(ctx: &mut Mesher, c0: u32, c1: u32, c2: u32, c3: u32, texture: usize)
    ensures
        final(ctx).registry.facets@ == old(ctx).registry.facets@.push(
            Facet { color_bits: [c0, c1, c2, c3], texture },
        ),
        final(ctx).registry.blocks@ == old(ctx).registry.blocks@,
        final(ctx).voxels == old(ctx).voxels,
        final(ctx).mask_data == old(ctx).mask_data,
{
    ctx.registry.add_facet(Facet { color_bits: [c0, c1, c2, c3], texture });
}

/// Replaces the volume with one of the given extents, every cell block 0;
/// fails, leaving the session as it was, when the cells do not fit in memory.
pub fn allocate_voxels(ctx: &mut Mesher, x: usize, y: usize, z: usize) -> (r: Result<(), MeshError>)
    ensures
        r is Err <==> (x * y > usize::MAX || x * y * z > usize::MAX),
        r is Err ==> r == Err::<(), MeshError>(MeshError::InvalidVolumeShape) && final(ctx).voxels == old(ctx).voxels,
        r is Ok ==> {
            &&& final(ctx).voxels.wf()
            &&& final(ctx).voxels.shape == [x, y, z]
            &&& forall|i: int| 0 <= i < final(ctx).voxels.data@.len() ==> final(ctx).voxels.data@[i] == 0
        },
        final(ctx).registry == old(ctx).registry,
        final(ctx).mask_data == old(ctx).mask_data,
{
    match Tensor3::allocate(x, y, z) {
        Ok(t) => {
            ctx.voxels = t;
            Ok(())
        },
        Err(e) => Err(e),
    }
}

/// The number of quads of the current volume, after validation.
pub fn mesh(ctx: &mut Mesher) -> (r: Result<usize, MeshError>)
    ensures
        final(ctx).registry == old(ctx).registry,
        final(ctx).voxels == old(ctx).voxels,
        match r {
            Ok(n) => valid(&old(ctx).voxels, &old(ctx).registry)
                && n == mesh_quads(&old(ctx).voxels, old(ctx).registry.blocks@).len()
                && mask_after(&old(ctx).voxels, old(ctx).mask_data.0@, final(ctx).mask_data.0@),
            Err(e) => validation(&old(ctx).voxels, &old(ctx).registry) == Err::<(), MeshError>(e)
                && final(ctx).mask_data == old(ctx).mask_data,
        },
{
    match ctx.quads() {
        Ok(q) => Ok(q.len()),
        Err(e) => Err(e),
    }
}

} // verus!
