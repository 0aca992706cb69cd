use vstd::prelude::*;
use crate::render::mesh::cube::UnitCube;
use crate::render::mesh::quad::TexelTexture;
use crate::render::texture::{name_index, uv_of, TextureAtlas};

verus! {

/// The blocks every world has, by id.
#[derive(Copy, Clone, Debug, PartialEq, Eq, Structural)]
pub enum Blocks {
    Air,
    Stone,
    Dirt,
    Grass,
    Leaves,
    Log,
}

/// The id of each of the standard blocks, in declaration order.
pub open spec fn blocks_id(b: Blocks) -> u32 {
    match b {
        Blocks::Air => 0,
        Blocks::Stone => 1,
        Blocks::Dirt => 2,
        Blocks::Grass => 3,
        Blocks::Leaves => 4,
        Blocks::Log => 5,
    }
}

impl Blocks {
    pub fn handle(self) -> (r: BlockHandle)
        ensures
            r.id() == blocks_id(self),
    {
        let id: u32 = match self {
            Blocks::Air => 0,
            Blocks::Stone => 1,
            Blocks::Dirt => 2,
            Blocks::Grass => 3,
            Blocks::Leaves => 4,
            Blocks::Log => 5,
        };
        BlockHandle::new(id)
    }
}

/// How a block fills its cell.
#[derive(Copy, Clone, Debug, PartialEq, PartialOrd, Structural)]
pub enum BlockType {
    Full,
    Transparent,
    Nothing,
}

/// The id of a block in the block data.
#[derive(Clone, Copy, Debug)]
pub struct BlockHandle {
    inner: u32,
}

impl BlockHandle {
    /// The id.
    pub closed spec fn id(self) -> u32 {
        self.inner
    }

    pub(crate) fn new(inner: u32) -> (r: Self)
        ensures
            r.id() == inner,
    {
        Self { inner }
    }

    pub fn new_unchecked(inner: u32) -> (r: Self)
        ensures
            r.id() == inner,
    {
        Self { inner }
    }

    pub fn inner(&self) -> (r: u32)
        ensures
            r == self.id(),
    {
        self.inner
    }
}

impl Default for BlockHandle {
    fn default() -> (r: Self)
        ensures
            r.id() == 0,
    {
        Self { inner: 0 }
    }
}

/// How a block is drawn: a cube with a texture on each face, a plant (two
/// crossed quads showing one texture of the atlas), or not at all.
#[derive(Clone, Debug)]
pub enum ModelType {
    FullBlock(UnitCube),
    Plant(TexelTexture),
    Nothing,
}

impl ModelType {
    /// The block is drawn as a full cube.
    pub fn is_full(&self) -> (r: bool)
        ensures
            r == (*self is FullBlock),
    {
        match self {
            ModelType::FullBlock(_) => true,
            _ => false,
        }
    }
}

impl From<Option<UnitCube>> for ModelType {
    fn from(value: Option<UnitCube>) -> (r: Self) {
        match value {
            Some(m) => Self::FullBlock(m),
            None => Self::Nothing,
        }
    }
}

impl vstd::std_specs::convert::FromSpecImpl<Option<UnitCube>> for ModelType {
    open spec fn obeys_from_spec() -> bool {
        true
    }

    open spec fn from_spec(value: Option<UnitCube>) -> ModelType {
        match value {
            Some(m) => ModelType::FullBlock(m),
            None => ModelType::Nothing,
        }
    }
}

/// The readable name of a block, its model and how it fills its cell.
#[derive(Debug, Clone)]
pub struct InitBlockData {
    pub id: String,
    pub model: ModelType,
    pub block_type: BlockType,
}

impl InitBlockData {
    /// Air: drawn as nothing, filling nothing.
    pub fn air() -> (r: Self)
        ensures
            r.id@ == "air"@,
            r.model == ModelType::Nothing,
            r.block_type == BlockType::Nothing,
    {
        Self { id: "air".to_owned(), model: ModelType::Nothing, block_type: BlockType::Nothing }
    }

    pub fn new_block(id: &str, model: Option<UnitCube>, block_type: BlockType) -> (r: Self)
        ensures
            r.id@ == id@,
            r.model == (match model {
                Some(m) => ModelType::FullBlock(m),
                None => ModelType::Nothing,
            }),
            r.block_type == block_type,
    {
        Self { id: id.to_owned(), model: ModelType::from(model), block_type }
    }

    /// A transparent plant showing the texture at `uv`.
    pub fn new_plant(id: &str, uv: TexelTexture) -> (r: Self)
        ensures
            r.id@ == id@,
            r.model == ModelType::Plant(uv),
            r.block_type == BlockType::Transparent,
    {
        Self { id: id.to_owned(), model: ModelType::Plant(uv), block_type: BlockType::Transparent }
    }
}

/// The block's name is `name`, it is drawn as a cube whose faces, by face
/// number, show the atlas textures of index `faces`, and it fills its cell as `t`.
pub open spec fn is_cube_block(b: InitBlockData, name: Seq<char>, faces: Seq<u32>, t: BlockType) -> bool {
    &&& b.id@ == name
    &&& b.model matches ModelType::FullBlock(cube) && forall|f: int|
        0 <= f < 6 ==> (#[trigger] cube.textures@[f]).spec_index() == faces[f]
    &&& b.block_type == t
}

/// The index, as a texture handle holds it, of the texture named `name`.
pub open spec fn texture_of(atlas: &TextureAtlas, name: Seq<char>) -> u32 {
    name_index(atlas.names@, name) as u32
}

/// Static block data, set up at startup: the blocks by id, the id being the
/// order in which they were added.
pub struct StaticBlockData {
    inner: Vec<InitBlockData>,
}

impl StaticBlockData {
    /// The blocks, by id.
    pub closed spec fn spec_blocks(&self) -> Seq<InitBlockData> {
        self.inner@
    }

    pub fn empty() -> (r: Self)
        ensures
            r.spec_blocks().len() == 0,
    {
        Self { inner: Vec::new() }
    }

    /// Adds the block and returns its handle, the number of blocks before it.
    pub fn add(&mut self, data: InitBlockData) -> (r: BlockHandle)
        ensures
            final(self).spec_blocks() == old(self).spec_blocks().push(data),
            r.id() == old(self).spec_blocks().len() as u32,
    {
        let idx = self.inner.len() as u32;
        self.inner.push(data);
        BlockHandle::new(idx)
    }

    /// The number of blocks.
    pub fn len(&self) -> (r: usize)
        ensures
            r == self.spec_blocks().len(),
    {
        self.inner.len()
    }

    pub fn get(&self, handle: &BlockHandle) -> (r: &InitBlockData)
        requires
            handle.id() < self.spec_blocks().len(),
        ensures
            *r == self.spec_blocks()[handle.id() as int],
    {
        &self.inner[handle.inner() as usize]
    }

    /// The block named `id`; where two were, the later one.
    pub fn get_handle(&self, id: &str) -> (r: Option<BlockHandle>)
        ensures
            r is Some <==> exists|i: int| 0 <= i < self.spec_blocks().len() && (#[trigger] self.spec_blocks()[i]).id@ == id@,
            r matches Some(h) ==> exists|i: int|
                #![trigger self.spec_blocks()[i]]
                0 <= i < self.spec_blocks().len() && self.spec_blocks()[i].id@ == id@ && h.id() == i as u32
                    && forall|j: int| i < j < self.spec_blocks().len() ==> (#[trigger] self.spec_blocks()[j]).id@ != id@,
    {
        let key = id.to_owned();
        let mut i = self.inner.len();
        while i > 0
            invariant
                i <= self.inner@.len(),
                key@ == id@,
                forall|j: int| i <= j < self.inner@.len() ==> (#[trigger] self.inner@[j]).id@ != id@,
            decreases i,
        {
            i = i - 1;
            if self.inner[i].id == key {
                return Some(BlockHandle::new(i as u32));
            }
        }
        None
    }

    /// Adds air, stone, dirt, grass block, leaves, log and grass, in that
    /// order, with their textures from the atlas, which must hold each of them.
    pub fn init(&mut self, atlas: &TextureAtlas)
        requires
            name_index(atlas.names@, "stone"@) >= 0,
            name_index(atlas.names@, "dirt"@) >= 0,
            name_index(atlas.names@, "grass_block_top"@) >= 0,
            name_index(atlas.names@, "grass_block_side"@) >= 0,
            name_index(atlas.names@, "leaves"@) >= 0,
            name_index(atlas.names@, "log_top"@) >= 0,
            name_index(atlas.names@, "log_side"@) >= 0,
            name_index(atlas.names@, "grass"@) >= 0,
            atlas.wf(),
        ensures
            final(self).spec_blocks().len() == old(self).spec_blocks().len() + 7,
            final(self).spec_blocks().take(old(self).spec_blocks().len() as int) == old(self).spec_blocks(),
            ({
                let b = final(self).spec_blocks();
                let o = old(self).spec_blocks().len() as int;
                let stone = texture_of(atlas, "stone"@);
                let dirt = texture_of(atlas, "dirt"@);
                let top = texture_of(atlas, "grass_block_top"@);
                let side = texture_of(atlas, "grass_block_side"@);
                let leaves = texture_of(atlas, "leaves"@);
                let log_top = texture_of(atlas, "log_top"@);
                let log_side = texture_of(atlas, "log_side"@);
                &&& b[o] == InitBlockData { id: b[o].id, model: ModelType::Nothing, block_type: BlockType::Nothing }
                &&& b[o].id@ == "air"@
                &&& is_cube_block(b[o + 1], "stone"@, seq![stone, stone, stone, stone, stone, stone], BlockType::Full)
                &&& is_cube_block(b[o + 2], "dirt"@, seq![dirt, dirt, dirt, dirt, dirt, dirt], BlockType::Full)
                &&& is_cube_block(b[o + 3], "grass_block"@, seq![side, side, top, dirt, side, side], BlockType::Full)
                &&& is_cube_block(b[o + 4], "leaves"@, seq![leaves, leaves, leaves, leaves, leaves, leaves], BlockType::Transparent)
                &&& is_cube_block(b[o + 5], "log"@, seq![log_side, log_side, log_top, log_top, log_side, log_side], BlockType::Full)
                &&& b[o + 6].id@ == "grass"@
                &&& b[o + 6].model == ModelType::Plant(uv_of(atlas.allocations@[texture_of(atlas, "grass"@) as int]))
                &&& b[o + 6].block_type == BlockType::Transparent
            }),
    {
        let ghost o = self.inner@.len() as int;
        self.add(InitBlockData::air());
        let stone = atlas.get_handle("stone").unwrap();
        self.add(InitBlockData::new_block("stone", UnitCube::new(vec![stone]), BlockType::Full));
        let dirt = atlas.get_handle("dirt").unwrap();
        self.add(InitBlockData::new_block("dirt", UnitCube::new(vec![dirt]), BlockType::Full));
        let top = atlas.get_handle("grass_block_top").unwrap();
        let side = atlas.get_handle("grass_block_side").unwrap();
        self.add(InitBlockData::new_block("grass_block", UnitCube::new(vec![top, side, dirt]), BlockType::Full));
        let leaves = atlas.get_handle("leaves").unwrap();
        self.add(InitBlockData::new_block("leaves", UnitCube::new(vec![leaves]), BlockType::Transparent));
        let log_top = atlas.get_handle("log_top").unwrap();
        let log_side = atlas.get_handle("log_side").unwrap();
        self.add(InitBlockData::new_block("log", UnitCube::new(vec![log_top, log_side, log_top]), BlockType::Full));
        let grass = atlas.get_handle("grass").unwrap();
        proof {
            crate::render::texture::lemma_name_index_bounds(atlas.names@, "grass"@);
        }
        self.add(InitBlockData::new_plant("grass", atlas.get_uv(grass)));
        proof {
            let b = self.inner@;
            assert(b.take(o) =~= old(self).spec_blocks());
        }
    }
}

} // verus!
