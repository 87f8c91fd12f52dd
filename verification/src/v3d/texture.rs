//! The uniforms of the fragment shader: a texture of RGBA bytes, repeated, with
//! the nearest texel taken.

use vstd::prelude::*;

use crate::bytes;
use crate::bytes::u32_bytes;
use crate::v3d::list;
use crate::v3d::list::put;

verus! {

/// The length of the uniforms.
pub const SIZE: usize = 8;

/// The texture.
#[derive(Clone, Copy, Debug, PartialEq, Eq, Structural)]
pub struct TextureParams {
    /// Where it is on the bus: at a multiple of 4096.
    pub address: u32,
    /// At most 2047.
    pub width_px: u16,
    /// At most 2047.
    pub height_px: u16,
}

impl TextureParams {
    /// The texture is where it can be, and not too large.
    pub open spec fn wf(self) -> bool {
        &&& self.address % 4096 == 0
        &&& self.width_px <= 2047
        &&& self.height_px <= 2047
    }
}

/// The size of a texture, with the nearest texel taken near and far.
pub open spec fn size_word(params: TextureParams) -> u32 {
    (params.height_px * 0x10_0000 + params.width_px * 0x100 + 0x90) as u32
}

/// The uniforms.
pub open spec fn texture_uniforms(params: TextureParams) -> Seq<u8> {
    bytes::le32_bytes(params.address) + bytes::le32_bytes(size_word(params))
}

/// Two textures with the same uniforms are the same.
pub proof fn law_texture_told(one: TextureParams, other: TextureParams)
    requires
        one.wf(),
        other.wf(),
        one.address == other.address,
        size_word(one) == size_word(other),
    ensures
        one == other,
{
}

/// Builds the uniforms at the beginning of `cl`; gives their length.
pub fn build_fragment_shader_uniforms(cl: &mut [u8], params: &TextureParams) -> (length: usize)
    requires
        old(cl)@.len() >= SIZE,
        params.wf(),
    ensures
        length == SIZE,
        final(cl)@ == texture_uniforms(*params) + old(cl)@.skip(SIZE as int),
{
    let where_it_is: [u8; 4] = u32_bytes(params.address);
    let size: [u8; 4] = u32_bytes(
        params.height_px as u32 * 0x10_0000 + params.width_px as u32 * 0x100 + 0x90,
    );
    let words: [u8; 8] = [
        where_it_is[0],
        where_it_is[1],
        where_it_is[2],
        where_it_is[3],
        size[0],
        size[1],
        size[2],
        size[3],
    ];
    assert(words@ =~= texture_uniforms(*params));
    let end: usize = put(cl, 0, &words);
    proof {
        assert(old(cl)@.take(0) + words@ =~= words@);
        list::lemma_whole(old(cl)@, cl@, words@);
    }
    end
}

} // verus!
