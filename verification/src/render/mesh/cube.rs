use vstd::prelude::*;
use crate::render::texture::TextureHandle;

verus! {

/// The six face textures, by face number (`+X -X +Y -Y +Z -Z`), given one,
/// three or six textures: one is used for every face; three are the top,
/// the sides and the bottom; six are used as they are.
pub open spec fn expanded_textures(t: Seq<TextureHandle>) -> Seq<TextureHandle> {
    if t.len() == 1 {
        seq![t[0], t[0], t[0], t[0], t[0], t[0]]
    } else if t.len() == 3 {
        seq![t[1], t[1], t[0], t[2], t[1], t[1]]
    } else {
        t.subrange(0, 6)
    }
}

/// A cube with a texture on each face.
#[derive(Debug, Clone)]
pub struct UnitCube {
    pub textures: [TextureHandle; 6],
}

impl UnitCube {
    /// There must be one, three or six textures.
    pub fn new(textures: Vec<TextureHandle>) -> (r: Option<Self>)
        requires
            textures@.len() == 1 || textures@.len() == 3 || textures@.len() == 6,
        ensures
            r is Some,
            r->0.textures@ == expanded_textures(textures@),
    {
        let t = Self::expand_textures(textures);
        match t {
            Some(textures) => Some(Self { textures }),
            None => None,
        }
    }

    pub fn expand_textures(textures: Vec<TextureHandle>) -> (r: Option<[TextureHandle; 6]>)
        requires
            textures@.len() == 1 || textures@.len() == 3 || textures@.len() == 6,
        ensures
            r is Some,
            r->0@ == expanded_textures(textures@),
    {
        let len = textures.len();
        if len == 1 {
            let t = textures[0];
            let r = [t; 6];
            proof {
                assert(r@ =~= expanded_textures(textures@));
            }
            Some(r)
        } else if len == 3 {
            let t = textures;
            let r = [t[1], t[1], t[0], t[2], t[1], t[1]];
            proof {
                assert(r@ =~= expanded_textures(t@));
            }
            Some(r)
        } else {
            let r = [textures[0], textures[1], textures[2], textures[3], textures[4], textures[5]];
            proof {
                assert(r@ =~= expanded_textures(textures@));
            }
            Some(r)
        }
    }
}

} // verus!
