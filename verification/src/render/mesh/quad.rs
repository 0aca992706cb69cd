use vstd::prelude::*;

verus! {

/// Where a texture lies in the atlas, in texels: the corner nearest the
/// origin and the extent along each axis.
#[derive(Copy, Clone, Debug)]
pub struct TexelTexture {
    pub offset: [u16; 2],
    pub size: [u16; 2],
}

impl TexelTexture {
    pub fn new(offset: [u16; 2], size: [u16; 2]) -> (r: Self)
        ensures
            r.offset == offset,
            r.size == size,
    {
        Self { offset, size }
    }
}

} // verus!
