//! The record of the shaders, with the two attributes of a vertex: a position of
//! four numbers, and a place in the texture of two.

use vstd::prelude::*;

use crate::bytes;
use crate::bytes::u32_bytes;
use crate::v3d::list;
use crate::v3d::list::put;

verus! {

/// The length of the record.
pub const SIZE: usize = 52;

/// What varies from record to record. Addresses are those on the bus.
#[derive(Clone, Copy, Debug, PartialEq, Eq, Structural)]
pub struct ShaderRecordParams {
    pub fragment_shader_code_address: u32,
    pub fragment_shader_uniforms_address: u32,
    pub fragment_shader_num_varyings: u8,
    pub vertex_shader_code_address: u32,
    pub vertex_shader_uniforms_address: u32,
    pub coordinate_shader_code_address: u32,
    pub coordinate_shader_uniforms_address: u32,
    /// Positions and places in the texture, in turn.
    pub vertex_buffer_address: u32,
}

/// The shaders: one thread, with clipping; the vertex shader reads both attributes,
/// 24 bytes, the coordinate shader the position, 16 bytes.
#[verifier::opaque]
pub open spec fn shaders(params: ShaderRecordParams) -> Seq<u8> {
    seq![0x05u8, 0u8, 0u8, params.fragment_shader_num_varyings] + bytes::le32_bytes(
        params.fragment_shader_code_address,
    ) + bytes::le32_bytes(params.fragment_shader_uniforms_address) + seq![
        0u8,
        0u8,
        0x03u8,
        24u8,
    ] + bytes::le32_bytes(params.vertex_shader_code_address) + bytes::le32_bytes(
        params.vertex_shader_uniforms_address,
    ) + seq![0u8, 0u8, 0x01u8, 16u8] + bytes::le32_bytes(params.coordinate_shader_code_address)
        + bytes::le32_bytes(params.coordinate_shader_uniforms_address)
}

/// An attribute: where it is, its length less one, how far it is to the next vertex,
/// and where the shaders find it.
pub open spec fn attribute(address: u32, length: int, offset: u8) -> Seq<u8> {
    bytes::le32_bytes(address) + seq![(length - 1) as u8, 24u8, offset, 0u8]
}

/// Both attributes.
#[verifier::opaque]
pub open spec fn attributes(params: ShaderRecordParams) -> Seq<u8> {
    attribute(params.vertex_buffer_address, 16, 0) + attribute(
        (params.vertex_buffer_address + 16) as u32,
        8,
        16,
    )
}

/// The whole record.
pub open spec fn record(params: ShaderRecordParams) -> Seq<u8> {
    shaders(params) + attributes(params)
}

/// The record always has the same length.
pub proof fn law_record(params: ShaderRecordParams)
    ensures
        record(params).len() == SIZE,
        shaders(params).len() == 36,
{
    reveal(shaders);
    reveal(attributes);
}

fn put_shaders(cl: &mut [u8], params: &ShaderRecordParams) -> (end: usize)
    requires
        36 <= old(cl)@.len(),
    ensures
        end == 36,
        list::laid(old(cl)@, 0, shaders(*params), final(cl)@),
{
    proof {
        reveal(shaders);
    }
    let f_code: [u8; 4] = u32_bytes(params.fragment_shader_code_address);
    let f_uniforms: [u8; 4] = u32_bytes(params.fragment_shader_uniforms_address);
    let v_code: [u8; 4] = u32_bytes(params.vertex_shader_code_address);
    let v_uniforms: [u8; 4] = u32_bytes(params.vertex_shader_uniforms_address);
    let c_code: [u8; 4] = u32_bytes(params.coordinate_shader_code_address);
    let c_uniforms: [u8; 4] = u32_bytes(params.coordinate_shader_uniforms_address);
    let packet: [u8; 36] = [
        0x05,
        0,
        0,
        params.fragment_shader_num_varyings,
        f_code[0],
        f_code[1],
        f_code[2],
        f_code[3],
        f_uniforms[0],
        f_uniforms[1],
        f_uniforms[2],
        f_uniforms[3],
        0,
        0,
        0x03,
        24,
        v_code[0],
        v_code[1],
        v_code[2],
        v_code[3],
        v_uniforms[0],
        v_uniforms[1],
        v_uniforms[2],
        v_uniforms[3],
        0,
        0,
        0x01,
        16,
        c_code[0],
        c_code[1],
        c_code[2],
        c_code[3],
        c_uniforms[0],
        c_uniforms[1],
        c_uniforms[2],
        c_uniforms[3],
    ];
    assert(packet@ =~= shaders(*params));
    put(cl, 0, &packet)
}

fn put_attributes(cl: &mut [u8], at: usize, params: &ShaderRecordParams) -> (end: usize)
    requires
        at + 16 <= old(cl)@.len(),
        params.vertex_buffer_address + 16 <= u32::MAX,
    ensures
        end == at + 16,
        list::laid(old(cl)@, at as int, attributes(*params), final(cl)@),
{
    proof {
        reveal(attributes);
    }
    let position: [u8; 4] = u32_bytes(params.vertex_buffer_address);
    let texture: [u8; 4] = u32_bytes(params.vertex_buffer_address + 16);
    let packet: [u8; 16] = [
        position[0],
        position[1],
        position[2],
        position[3],
        15,
        24,
        0,
        0,
        texture[0],
        texture[1],
        texture[2],
        texture[3],
        7,
        24,
        16,
        0,
    ];
    assert(packet@ =~= attributes(*params));
    put(cl, at, &packet)
}

/// Builds the record at the beginning of `cl`; gives its length.
pub fn build(cl: &mut [u8], params: &ShaderRecordParams) -> (length: usize)
    requires
        old(cl)@.len() >= SIZE,
        params.vertex_buffer_address + 16 <= u32::MAX,
    ensures
        length == SIZE,
        final(cl)@ == record(*params) + old(cl)@.skip(SIZE as int),
{
    proof {
        law_record(*params);
    }
    let at: usize = put_shaders(cl, params);
    let ghost between = cl@;
    let at: usize = put_attributes(cl, at, params);
    proof {
        list::lemma_more(old(cl)@, 0, shaders(*params), between, attributes(*params), cl@);
        assert(old(cl)@.take(0) + record(*params) =~= record(*params));
        list::lemma_whole(old(cl)@, cl@, record(*params));
    }
    at
}

} // verus!
