use vstd::prelude::*;

verus! {

/// Why a volume or a catalog cannot be meshed.
#[derive(Clone, Copy, Debug, PartialEq, Eq)]
pub enum MeshError {
    /// The extents overflow, or the data or strides do not match the extents.
    InvalidVolumeShape,
    /// A cell holds a block id outside the block table.
    UnknownBlockId,
    /// A block names a facet id outside the facet table.
    UnknownFacetId,
    /// The quads' coordinates or vertex count exceed the vertex buffers' integers.
    GeometryTooLarge,
}

/// A dense 3D grid of block ids, laid out with `x` varying fastest.
pub struct Tensor3 {
    pub data: Vec<u32>,
    pub shape: [usize; 3],
    pub stride: [usize; 3],
}

/// The number of cells of a volume with the given extents.
pub open spec fn cell_count(shape: [usize; 3]) -> int {
    shape[0] * shape[1] * shape[2]
}

impl Tensor3 {
    /// The data holds one id per cell and the strides are `[1, x, x * y]`.
    pub open spec fn wf(&self) -> bool {
        &&& self.data@.len() == cell_count(self.shape)
        &&& self.stride[0] == 1
        &&& self.stride[1] == self.shape[0]
        &&& self.stride[2] == self.shape[0] * self.shape[1]
    }

    /// The position of cell `(x, y, z)` in `data`.
    pub open spec fn index(&self, x: int, y: int, z: int) -> int {
        x + y * self.shape[0] + z * (self.shape[0] * self.shape[1])
    }

    pub open spec fn in_bounds(&self, x: int, y: int, z: int) -> bool {
        0 <= x < self.shape[0] && 0 <= y < self.shape[1] && 0 <= z < self.shape[2]
    }

    /// The block id at cell `(x, y, z)`.
    pub open spec fn block_at(&self, x: int, y: int, z: int) -> u32 {
        self.data@[self.index(x, y, z)]
    }

    /// A cell inside the volume has its position inside `data`.
    pub proof fn lemma_index_in_bounds(&self, x: int, y: int, z: int)
        requires
            self.wf(),
            self.in_bounds(x, y, z),
        ensures
            0 <= self.index(x, y, z) < self.data@.len(),
    {
        let sx = self.shape[0] as int;
        let sy = self.shape[1] as int;
        let sz = self.shape[2] as int;
        assert(0 <= x + y * sx + z * (sx * sy) < sx * sy * sz) by (nonlinear_arith)
            requires 0 <= x < sx, 0 <= y < sy, 0 <= z < sz,
        {
            assert(x + y * sx <= (sy - 1) * sx + sx - 1);
            assert(z * (sx * sy) <= (sz - 1) * (sx * sy));
        }
    }

    /// An empty volume with no cells.
    pub fn new() -> (r: Tensor3)
        ensures
            r.wf(),
            r.shape == [0usize, 0, 0],
            r.data@.len() == 0,
    {
        Tensor3 { data: Vec::new(), shape: [0, 0, 0], stride: [1, 0, 0] }
    }

    /// A volume of the given extents with every cell set to block 0; fails
    /// when the cell count does not fit in `usize`.
    pub fn allocate(x: usize, y: usize, z: usize) -> (r: Result<Tensor3, MeshError>)
        ensures
            r is Err <==> (x * y > usize::MAX || x * y * z > usize::MAX),
            r is Err ==> r == Err::<Tensor3, MeshError>(MeshError::InvalidVolumeShape),
            r matches Ok(t) ==> {
                &&& t.wf()
                &&& t.shape == [x, y, z]
                &&& forall|i: int| 0 <= i < t.data@.len() ==> t.data@[i] == 0
            },
    {
        let xy = match x.checked_mul(y) {
            Some(v) => v,
            None => return Err(MeshError::InvalidVolumeShape),
        };
        let n = match xy.checked_mul(z) {
            Some(v) => v,
            None => return Err(MeshError::InvalidVolumeShape),
        };
        let mut data: Vec<u32> = Vec::new();
        let mut i: usize = 0;
        while i < n
            invariant
                i <= n,
                data@.len() == i,
                forall|j: int| 0 <= j < i ==> data@[j] == 0,
            decreases n - i,
        {
            data.push(0);
            i += 1;
        }
        Ok(Tensor3 { data, shape: [x, y, z], stride: [1, x, xy] })
    }

    /// Where cell `(x, y, z)` lies in `data`.
    pub fn index_of(&self, x: usize, y: usize, z: usize) -> (r: usize)
        requires
            self.wf(),
            self.in_bounds(x as int, y as int, z as int),
        ensures
            r as int == self.index(x as int, y as int, z as int),
            r < self.data@.len(),
    {
        let sx = self.shape[0];
        let sy = self.shape[1];
        let sz = self.shape[2];
        let n = self.data.len();
        proof {
            assert(x + y * sx + z * (sx * sy) < sx * sy * sz) by (nonlinear_arith)
                requires x < sx, y < sy, z < sz,
            {
                assert(x + y * sx <= (sy - 1) * sx + sx - 1);
                assert(z * (sx * sy) <= (sz - 1) * (sx * sy));
            }
            assert(y * sx >= 0 && z * (sx * sy) >= 0) by (nonlinear_arith);
        }
        let s1 = self.stride[1];
        let s2 = self.stride[2];
        assert(y * s1 == y * sx && z * s2 == z * (sx * sy));
        x + y * s1 + z * s2
    }

    /// The block id at cell `(x, y, z)`.
    pub fn get(&self, x: usize, y: usize, z: usize) -> (r: u32)
        requires
            self.wf(),
            self.in_bounds(x as int, y as int, z as int),
        ensures
            r == self.block_at(x as int, y as int, z as int),
            0 <= self.index(x as int, y as int, z as int) < self.data@.len(),
    {
        let i = self.index_of(x, y, z);
        self.data[i]
    }

    /// Sets cell `(x, y, z)` to block `b`, leaving every other cell as it was.
    pub fn set(&mut self, x: usize, y: usize, z: usize, b: u32)
        requires
            old(self).wf(),
            old(self).in_bounds(x as int, y as int, z as int),
        ensures
            final(self).wf(),
            final(self).shape == old(self).shape,
            final(self).data@ == old(self).data@.update(old(self).index(x as int, y as int, z as int), b),
    {
        let i = self.index_of(x, y, z);
        self.data.set(i, b);
    }
}

} // verus!
