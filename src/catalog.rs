use vstd::prelude::*;

verus! {

/// The facet id that marks a side of a block without any visible surface.
pub const NO_MATERIAL: u32 = 0;

/// One block type: the facet shown on each of its six sides, in the order
/// `+x, -x, +y, -y, +z, -z`, and its two flags.
#[derive(Clone, Copy, Debug, PartialEq, Eq)]
pub struct Block {
    pub facets: [u32; 6],
    pub opaque: bool,
    pub solid: bool,
}

/// One facet (material): its colour as the IEEE-754 bit patterns of its four
/// RGBA channels, and the texture layer it samples.
#[derive(Clone, Copy, Debug, PartialEq, Eq)]
pub struct Facet {
    pub color_bits: [u32; 4],
    pub texture: usize,
}

/// The block and facet tables that a mesh call reads.
pub struct Registry {
    pub blocks: Vec<Block>,
    pub facets: Vec<Facet>,
}

impl Registry {
    /// An empty registry.
    pub fn new() -> (r: Registry)
        ensures
            r.blocks@.len() == 0,
            r.facets@.len() == 0,
    {
        Registry { blocks: Vec::new(), facets: Vec::new() }
    }

    /// Every facet id named by a block is in the facet table or is `NO_MATERIAL`.
    pub open spec fn facets_known(&self) -> bool {
        forall|b: int, i: int|
            0 <= b < self.blocks@.len() && 0 <= i < 6 ==> {
                let f = #[trigger] self.blocks@[b].facets[i];
                f == NO_MATERIAL || (f as int) < self.facets@.len()
            }
    }

    /// Appends a block; its id is the number of blocks before it.
    pub fn add_block(&mut self, b: Block) -> (id: usize)
        ensures
            id == old(self).blocks@.len(),
            final(self).blocks@ == old(self).blocks@.push(b),
            final(self).facets@ == old(self).facets@,
    {
        let id = self.blocks.len();
        self.blocks.push(b);
        id
    }

    /// Appends a facet; its id is the number of facets before it.
    pub fn add_facet(&mut self, f: Facet) -> (id: usize)
        ensures
            id == old(self).facets@.len(),
            final(self).facets@ == old(self).facets@.push(f),
            final(self).blocks@ == old(self).blocks@,
    {
        let id = self.facets.len();
        self.facets.push(f);
        id
    }
}

} // verus!
