//! The control list of the binning pass: one indexed triangle list.

use vstd::prelude::*;

use crate::bytes;
use crate::bytes::{u16_bytes, u32_bytes};
use crate::v3d::list;
use crate::v3d::list::{negative_float, put, whole_float};

verus! {

/// The length of the list.
pub const SIZE: usize = 96;

/// The bits of the single-precision number 1.
pub const ONE: u32 = 0x3f80_0000;

/// The bits of the single-precision number 1/2.
pub const HALF: u32 = 0x3f00_0000;

/// What varies from list to list. Addresses are those on the bus.
#[derive(Clone, Copy, Debug, PartialEq, Eq, Structural)]
pub struct BclParams {
    /// Where the tile lists go.
    pub tile_alloc_address: u32,
    pub tile_alloc_size: u32,
    /// The state of the tiles, as large as [`tile_state_size`] says.
    pub tile_state_address: u32,
    pub width_in_tiles: u8,
    pub height_in_tiles: u8,
    pub width_px: u16,
    pub height_px: u16,
    /// A multiple of 16.
    pub shader_state_address: u32,
    /// From 1 to 8.
    pub attribute_array_count: u8,
    pub index_buffer_address: u32,
    pub index_count: u32,
    pub max_index: u16,
    /// Whether what is hidden is not drawn.
    pub depth_test_enabled: bool,
}

impl BclParams {
    /// The shaders are where they can be, with as many attributes as there can be.
    pub open spec fn wf(self) -> bool {
        &&& self.shader_state_address % 16 == 0
        &&& 1 <= self.attribute_array_count <= 8
    }
}

/// The memory that the state of the tiles takes: 48 bytes for each, in pages of
/// 4096.
pub open spec fn state_size(tiles: int) -> int {
    (48 * tiles + 4095) / 4096 * 4096
}

/// The memory that the state of so many tiles takes.
pub fn tile_state_size(width_in_tiles: u8, height_in_tiles: u8) -> (size: u32)
    ensures
        size == state_size(width_in_tiles * height_in_tiles),
{
    assert(0 <= width_in_tiles * height_in_tiles <= 255 * 255) by (nonlinear_arith)
        requires
            width_in_tiles <= 255,
            height_in_tiles <= 255,
    ;
    let tile_count: u32 = width_in_tiles as u32 * height_in_tiles as u32;
    (48 * tile_count + 4095) / 4096 * 4096
}

/// The memory is whole pages, enough for every tile, and no page too many.
pub proof fn law_state_size(tiles: int)
    requires
        0 <= tiles,
    ensures
        state_size(tiles) % 4096 == 0,
        48 * tiles <= state_size(tiles) < 48 * tiles + 4096,
{
}

/// Half of a side in sixteenths of a pixel, as a 16-bit number; the largest one
/// if it is larger.
pub open spec fn centre(side: u16) -> u16 {
    if side as int * 8 > 65535 {
        65535
    } else {
        (side * 8) as u16
    }
}

/// Where the tile lists and the state of the tiles go, and how many tiles there are.
#[verifier::opaque]
pub open spec fn tile_binning_mode(params: BclParams) -> Seq<u8> {
    seq![0x70u8] + bytes::le32_bytes(params.tile_alloc_address) + bytes::le32_bytes(
        params.tile_alloc_size,
    ) + bytes::le32_bytes(params.tile_state_address) + seq![
        params.width_in_tiles,
        params.height_in_tiles,
        0x44u8,
    ]
}

/// Start binning; triangles with 16-bit indices.
#[verifier::opaque]
pub open spec fn start() -> Seq<u8> {
    seq![0x06u8, 0x38u8, 0x12u8]
}

/// The window that is drawn to: all of the target.
#[verifier::opaque]
pub open spec fn clip_window(params: BclParams) -> Seq<u8> {
    seq![0x66u8, 0u8, 0u8, 0u8, 0u8] + bytes::le16_bytes(params.width_px) + bytes::le16_bytes(
        params.height_px,
    )
}

/// Draw both faces; with a depth test keep what is nearer, else everything.
#[verifier::opaque]
pub open spec fn configuration(params: BclParams) -> Seq<u8> {
    if params.depth_test_enabled {
        seq![0x60u8, 0x07u8, 0x90u8, 0x03u8]
    } else {
        seq![0x60u8, 0x07u8, 0x70u8, 0x02u8]
    }
}

/// No depth offset; points and lines one pixel wide.
#[verifier::opaque]
pub open spec fn sizes() -> Seq<u8> {
    seq![0x65u8, 0u8, 0u8, 0u8, 0u8] + seq![0x62u8] + bytes::le32_bytes(ONE) + seq![0x63u8]
        + bytes::le32_bytes(ONE)
}

/// From clip space to the screen, in sixteenths of a pixel: half the sides, with the
/// vertical axis turned over, and depth from 0 to 1.
#[verifier::opaque]
pub open spec fn scaling(params: BclParams) -> Seq<u8> {
    seq![0x69u8] + bytes::le32_bytes(list::float_bits(params.width_px * 8)) + bytes::le32_bytes(
        list::negative_bits(params.height_px * 8),
    ) + seq![0x6au8] + bytes::le32_bytes(HALF) + bytes::le32_bytes(HALF)
}

/// The centre of the screen, and nothing shaded flat.
#[verifier::opaque]
pub open spec fn viewport(params: BclParams) -> Seq<u8> {
    seq![0x67u8] + bytes::le16_bytes(centre(params.width_px)) + bytes::le16_bytes(
        centre(params.height_px),
    ) + seq![0x61u8, 0u8, 0u8, 0u8, 0u8]
}

/// Where the shaders are, and how many attributes they have; 8 is written as 0.
pub open spec fn shaders(params: BclParams) -> u32 {
    (params.shader_state_address + params.attribute_array_count % 8) as u32
}

/// The shaders.
#[verifier::opaque]
pub open spec fn shader_state(params: BclParams) -> Seq<u8> {
    seq![0x40u8] + bytes::le32_bytes(shaders(params))
}

/// Draw the triangles.
#[verifier::opaque]
pub open spec fn indexed_primitives(params: BclParams) -> Seq<u8> {
    seq![0x20u8, 0x14u8] + bytes::le32_bytes(params.index_count) + bytes::le32_bytes(
        params.index_buffer_address,
    ) + bytes::le32_bytes(params.max_index as u32)
}

/// Let the render pass go on once the tile lists are flushed, and flush them.
#[verifier::opaque]
pub open spec fn finish() -> Seq<u8> {
    seq![0x07u8, 0x04u8]
}

/// The whole list.
pub open spec fn binning_list(params: BclParams) -> Seq<u8> {
    Seq::<u8>::empty() + tile_binning_mode(params) + start() + clip_window(params) + configuration(
        params,
    ) + sizes() + scaling(params) + viewport(params) + shader_state(params) + indexed_primitives(
        params,
    ) + finish()
}

pub(crate) proof fn lemma_lengths(params: BclParams)
    ensures
        tile_binning_mode(params).len() == 16,
        start().len() == 3,
        clip_window(params).len() == 9,
        configuration(params).len() == 4,
        sizes().len() == 15,
        scaling(params).len() == 18,
        viewport(params).len() == 10,
        shader_state(params).len() == 5,
        indexed_primitives(params).len() == 14,
        finish().len() == 2,
{
    reveal(tile_binning_mode);
    reveal(start);
    reveal(clip_window);
    reveal(configuration);
    reveal(sizes);
    reveal(scaling);
    reveal(viewport);
    reveal(shader_state);
    reveal(indexed_primitives);
    reveal(finish);
}

/// Where the scaling is in the list.
pub proof fn lemma_scaling_placed(params: BclParams)
    ensures
        binning_list(params).len() >= 65,
        scaling(params).len() == 18,
        forall|i: int| 0 <= i < 18 ==> binning_list(params)[47 + i] == #[trigger] scaling(params)[i],
{
    lemma_lengths(params);
}

/// The list always has the same length, and ends by flushing.
pub proof fn law_binning_list(params: BclParams)
    ensures
        binning_list(params).len() == SIZE,
        binning_list(params)[94] == 0x07,
        binning_list(params)[95] == 0x04,
{
    lemma_lengths(params);
    reveal(finish);
}

fn put_tile_binning_mode(cl: &mut [u8], at: usize, params: &BclParams) -> (end: usize)
    requires
        at + 16 <= old(cl)@.len(),
    ensures
        end == at + 16,
        list::laid(old(cl)@, at as int, tile_binning_mode(*params), final(cl)@),
{
    proof {
        reveal(tile_binning_mode);
    }
    let alloc: [u8; 4] = u32_bytes(params.tile_alloc_address);
    let size: [u8; 4] = u32_bytes(params.tile_alloc_size);
    let state: [u8; 4] = u32_bytes(params.tile_state_address);
    let packet: [u8; 16] = [
        0x70,
        alloc[0],
        alloc[1],
        alloc[2],
        alloc[3],
        size[0],
        size[1],
        size[2],
        size[3],
        state[0],
        state[1],
        state[2],
        state[3],
        params.width_in_tiles,
        params.height_in_tiles,
        0x44,
    ];
    assert(packet@ =~= tile_binning_mode(*params));
    put(cl, at, &packet)
}

fn put_start(cl: &mut [u8], at: usize) -> (end: usize)
    requires
        at + 3 <= old(cl)@.len(),
    ensures
        end == at + 3,
        list::laid(old(cl)@, at as int, start(), final(cl)@),
{
    proof {
        reveal(start);
    }
    let packet: [u8; 3] = [
        0x06,
        0x38,
        0x12,
    ];
    assert(packet@ =~= start());
    put(cl, at, &packet)
}

fn put_clip_window(cl: &mut [u8], at: usize, params: &BclParams) -> (end: usize)
    requires
        at + 9 <= old(cl)@.len(),
    ensures
        end == at + 9,
        list::laid(old(cl)@, at as int, clip_window(*params), final(cl)@),
{
    proof {
        reveal(clip_window);
    }
    let width: [u8; 2] = u16_bytes(params.width_px);
    let height: [u8; 2] = u16_bytes(params.height_px);
    let packet: [u8; 9] = [
        0x66,
        0,
        0,
        0,
        0,
        width[0],
        width[1],
        height[0],
        height[1],
    ];
    assert(packet@ =~= clip_window(*params));
    put(cl, at, &packet)
}

fn put_configuration(cl: &mut [u8], at: usize, params: &BclParams) -> (end: usize)
    requires
        at + 4 <= old(cl)@.len(),
    ensures
        end == at + 4,
        list::laid(old(cl)@, at as int, configuration(*params), final(cl)@),
{
    proof {
        reveal(configuration);
    }
    let packet: [u8; 4] = if params.depth_test_enabled {
        [0x60, 0x07, 0x90, 0x03]
    } else {
        [0x60, 0x07, 0x70, 0x02]
    };
    assert(packet@ =~= configuration(*params));
    put(cl, at, &packet)
}

fn put_sizes(cl: &mut [u8], at: usize) -> (end: usize)
    requires
        at + 15 <= old(cl)@.len(),
    ensures
        end == at + 15,
        list::laid(old(cl)@, at as int, sizes(), final(cl)@),
{
    proof {
        reveal(sizes);
    }
    let one: [u8; 4] = u32_bytes(ONE);
    let packet: [u8; 15] = [
        0x65,
        0,
        0,
        0,
        0,
        0x62,
        one[0],
        one[1],
        one[2],
        one[3],
        0x63,
        one[0],
        one[1],
        one[2],
        one[3],
    ];
    assert(packet@ =~= sizes());
    put(cl, at, &packet)
}

fn put_scaling(cl: &mut [u8], at: usize, params: &BclParams) -> (end: usize)
    requires
        at + 18 <= old(cl)@.len(),
    ensures
        end == at + 18,
        list::laid(old(cl)@, at as int, scaling(*params), final(cl)@),
{
    proof {
        reveal(scaling);
    }
    let x: [u8; 4] = u32_bytes(whole_float(params.width_px as u32 * 8));
    let y: [u8; 4] = u32_bytes(negative_float(params.height_px as u32 * 8));
    let half: [u8; 4] = u32_bytes(HALF);
    let packet: [u8; 18] = [
        0x69,
        x[0],
        x[1],
        x[2],
        x[3],
        y[0],
        y[1],
        y[2],
        y[3],
        0x6a,
        half[0],
        half[1],
        half[2],
        half[3],
        half[0],
        half[1],
        half[2],
        half[3],
    ];
    assert(packet@ =~= scaling(*params));
    put(cl, at, &packet)
}

fn put_viewport(cl: &mut [u8], at: usize, params: &BclParams) -> (end: usize)
    requires
        at + 10 <= old(cl)@.len(),
    ensures
        end == at + 10,
        list::laid(old(cl)@, at as int, viewport(*params), final(cl)@),
{
    proof {
        reveal(viewport);
    }
    let x: [u8; 2] = u16_bytes(middle(params.width_px));
    let y: [u8; 2] = u16_bytes(middle(params.height_px));
    let packet: [u8; 10] = [
        0x67,
        x[0],
        x[1],
        y[0],
        y[1],
        0x61,
        0,
        0,
        0,
        0,
    ];
    assert(packet@ =~= viewport(*params));
    put(cl, at, &packet)
}

fn put_shader_state(cl: &mut [u8], at: usize, params: &BclParams) -> (end: usize)
    requires
        at + 5 <= old(cl)@.len(),
        params.wf(),
    ensures
        end == at + 5,
        list::laid(old(cl)@, at as int, shader_state(*params), final(cl)@),
{
    proof {
        reveal(shader_state);
    }
    let word: [u8; 4] = u32_bytes(shader_word(params));
    let packet: [u8; 5] = [
        0x40,
        word[0],
        word[1],
        word[2],
        word[3],
    ];
    assert(packet@ =~= shader_state(*params));
    put(cl, at, &packet)
}

fn put_indexed_primitives(cl: &mut [u8], at: usize, params: &BclParams) -> (end: usize)
    requires
        at + 14 <= old(cl)@.len(),
    ensures
        end == at + 14,
        list::laid(old(cl)@, at as int, indexed_primitives(*params), final(cl)@),
{
    proof {
        reveal(indexed_primitives);
    }
    let count: [u8; 4] = u32_bytes(params.index_count);
    let address: [u8; 4] = u32_bytes(params.index_buffer_address);
    let largest: [u8; 4] = u32_bytes(params.max_index as u32);
    let packet: [u8; 14] = [
        0x20,
        0x14,
        count[0],
        count[1],
        count[2],
        count[3],
        address[0],
        address[1],
        address[2],
        address[3],
        largest[0],
        largest[1],
        largest[2],
        largest[3],
    ];
    assert(packet@ =~= indexed_primitives(*params));
    put(cl, at, &packet)
}

fn put_finish(cl: &mut [u8], at: usize) -> (end: usize)
    requires
        at + 2 <= old(cl)@.len(),
    ensures
        end == at + 2,
        list::laid(old(cl)@, at as int, finish(), final(cl)@),
{
    proof {
        reveal(finish);
    }
    let packet: [u8; 2] = [
        0x07,
        0x04,
    ];
    assert(packet@ =~= finish());
    put(cl, at, &packet)
}

fn shader_word(params: &BclParams) -> (word: u32)
    requires
        params.wf(),
    ensures
        word == shaders(*params),
{
    assert(params.shader_state_address <= 0xffff_fff0);
    params.shader_state_address + (params.attribute_array_count % 8) as u32
}

fn middle(side: u16) -> (place: u16)
    ensures
        place == centre(side),
{
    if side as u32 * 8 > 65535 {
        65535
    } else {
        (side as u32 * 8) as u16
    }
}

/// Builds the control list of the binning pass at the beginning of `cl`; gives its
/// length.
pub fn build(cl: &mut [u8], params: &BclParams) -> (length: usize)
    requires
        old(cl)@.len() >= SIZE,
        params.wf(),
    ensures
        length == SIZE,
        final(cl)@ == binning_list(*params) + old(cl)@.skip(SIZE as int),
{
    proof {
        lemma_lengths(*params);
        assert(cl@.take(0) =~= Seq::<u8>::empty());
    }
    let at: usize = put_tile_binning_mode(cl, 0, params);
    let at: usize = put_start(cl, at);
    let at: usize = put_clip_window(cl, at, params);
    let at: usize = put_configuration(cl, at, params);
    let at: usize = put_sizes(cl, at);
    let at: usize = put_scaling(cl, at, params);
    let at: usize = put_viewport(cl, at, params);
    let at: usize = put_shader_state(cl, at, params);
    let at: usize = put_indexed_primitives(cl, at, params);
    let at: usize = put_finish(cl, at);
    proof {
        law_binning_list(*params);
        list::lemma_whole(old(cl)@, cl@, binning_list(*params));
    }
    at
}

} // verus!
