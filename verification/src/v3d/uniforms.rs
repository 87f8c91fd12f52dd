//! The uniforms of the coordinate and vertex shaders: a matrix, in the order in
//! which each shader reads it, and the viewport.
//!
//! Single-precision numbers are given by their bits.

use vstd::prelude::*;

use crate::bytes;
use crate::bytes::u32_bytes;
use crate::v3d::bcl;
use crate::v3d::bcl::{BclParams, HALF};
use crate::v3d::list;
use crate::v3d::list::{negative_float, put, whole_float};

verus! {

/// How many uniforms each shader has.
pub const UNIFORM_COUNT: usize = 20;

/// The length of the uniforms.
pub const SIZE: usize = 80;

/// The order in which the coordinate shader reads the matrix.
pub open spec fn coordinate_order() -> Seq<int> {
    seq![0, 4, 1, 7, 5, 3, 6, 2, 8, 11, 9, 10, 15, 12, 13, 14]
}

/// The order in which the vertex shader reads the matrix.
pub open spec fn vertex_order() -> Seq<int> {
    seq![3, 7, 4, 0, 5, 1, 6, 2, 11, 8, 9, 10, 15, 12, 13, 14]
}

/// Half the width in sixteenths of a pixel.
pub open spec fn x_scale(width: u16) -> u32 {
    list::float_bits(width * 8)
}

/// Half the height in sixteenths of a pixel, turned over.
pub open spec fn y_scale(height: u16) -> u32 {
    list::negative_bits(height * 8)
}

/// The words that the coordinate shader reads.
pub open spec fn coordinate_words(mvp: Seq<u32>, width: u16, height: u16) -> Seq<u32> {
    coordinate_order().map_values(|i: int| mvp[i]) + seq![
        x_scale(width),
        y_scale(height),
        HALF,
        HALF,
    ]
}

/// The words that the vertex shader reads: here the height comes before the width.
pub open spec fn vertex_words(mvp: Seq<u32>, width: u16, height: u16) -> Seq<u32> {
    vertex_order().map_values(|i: int| mvp[i]) + seq![
        y_scale(height),
        x_scale(width),
        HALF,
        HALF,
    ]
}

/// Words as they are in memory.
pub open spec fn in_memory(words: Seq<u32>) -> Seq<u8>
    decreases words.len(),
{
    if words.len() == 0 {
        Seq::empty()
    } else {
        in_memory(words.drop_last()) + bytes::le32_bytes(words.last())
    }
}

/// Each shader reads every element of the matrix once.
pub proof fn law_orders(element: int)
    requires
        0 <= element < 16,
    ensures
        coordinate_order().contains(element),
        vertex_order().contains(element),
        coordinate_order().len() == 16,
        vertex_order().len() == 16,
{
    assert(coordinate_order()[0] == 0 && coordinate_order()[2] == 1 && coordinate_order()[7] == 2
        && coordinate_order()[5] == 3 && coordinate_order()[1] == 4 && coordinate_order()[4] == 5
        && coordinate_order()[6] == 6 && coordinate_order()[3] == 7 && coordinate_order()[8] == 8
        && coordinate_order()[10] == 9 && coordinate_order()[11] == 10 && coordinate_order()[9]
        == 11 && coordinate_order()[13] == 12 && coordinate_order()[14] == 13
        && coordinate_order()[15] == 14 && coordinate_order()[12] == 15);
    assert(vertex_order()[3] == 0 && vertex_order()[5] == 1 && vertex_order()[7] == 2
        && vertex_order()[0] == 3 && vertex_order()[2] == 4 && vertex_order()[4] == 5
        && vertex_order()[6] == 6 && vertex_order()[1] == 7 && vertex_order()[9] == 8
        && vertex_order()[10] == 9 && vertex_order()[11] == 10 && vertex_order()[8] == 11
        && vertex_order()[13] == 12 && vertex_order()[14] == 13 && vertex_order()[15] == 14
        && vertex_order()[12] == 15);
}

/// The shaders scale by what the binning list of the same frame says.
pub proof fn law_viewport_agrees(params: BclParams, mvp: Seq<u32>)
    ensures
        ({
            let list = bcl::binning_list(params);
            let coordinate = coordinate_words(mvp, params.width_px, params.height_px);
            let vertex = vertex_words(mvp, params.width_px, params.height_px);
            &&& list.subrange(48, 52) == bytes::le32_bytes(coordinate[16])
            &&& list.subrange(52, 56) == bytes::le32_bytes(coordinate[17])
            &&& list.subrange(57, 61) == bytes::le32_bytes(coordinate[18])
            &&& list.subrange(61, 65) == bytes::le32_bytes(coordinate[19])
            &&& vertex[17] == coordinate[16]
            &&& vertex[16] == coordinate[17]
            &&& vertex[18] == coordinate[18]
            &&& vertex[19] == coordinate[19]
        }),
{
    let list = bcl::binning_list(params);
    bcl::lemma_scaling_placed(params);
    let part = bcl::scaling(params);
    reveal(bcl::scaling);
    assert(list.subrange(48, 52) =~= part.subrange(1, 5));
    assert(list.subrange(52, 56) =~= part.subrange(5, 9));
    assert(list.subrange(57, 61) =~= part.subrange(10, 14));
    assert(list.subrange(61, 65) =~= part.subrange(14, 18));
    assert(part.subrange(1, 5) =~= bytes::le32_bytes(x_scale(params.width_px)));
    assert(part.subrange(5, 9) =~= bytes::le32_bytes(y_scale(params.height_px)));
    assert(part.subrange(10, 14) =~= bytes::le32_bytes(HALF));
    assert(part.subrange(14, 18) =~= bytes::le32_bytes(HALF));
}

fn put_words(cl: &mut [u8], words: &[u32; 20]) -> (length: usize)
    requires
        old(cl)@.len() >= SIZE,
    ensures
        length == SIZE,
        final(cl)@ == in_memory(words@) + old(cl)@.skip(SIZE as int),
{
    let mut done: usize = 0;
    let mut at: usize = 0;
    assert(cl@.take(0) + Seq::<u8>::empty() =~= cl@.take(0));
    assert(words@.take(0) =~= Seq::<u32>::empty());
    while done < UNIFORM_COUNT
        invariant
            done <= UNIFORM_COUNT,
            at == 4 * done,
            cl@.len() == old(cl)@.len(),
            cl@.len() >= SIZE,
            in_memory(words@.take(done as int)).len() == at,
            list::laid(old(cl)@, 0, in_memory(words@.take(done as int)), cl@),
        decreases UNIFORM_COUNT - done,
    {
        let ghost before = in_memory(words@.take(done as int));
        let ghost between = cl@;
        let word: [u8; 4] = u32_bytes(words[done]);
        at = put(cl, at, &word);
        proof {
            let more = words@.take(done + 1);
            assert(more.drop_last() =~= words@.take(done as int));
            list::lemma_more(old(cl)@, 0, before, between, word@, cl@);
        }
        done = done + 1;
    }
    proof {
        assert(words@.take(20) =~= words@);
        assert(old(cl)@.take(0) + in_memory(words@) =~= in_memory(words@));
        list::lemma_whole(old(cl)@, cl@, in_memory(words@));
    }
    at
}

/// Builds the uniforms of the coordinate shader at the beginning of `cl`; gives
/// their length. `mvp` has the bits of the matrix, column by column.
pub fn build_coordinate_shader_uniforms(
    cl: &mut [u8],
    mvp: &[u32; 16],
    width_px: u16,
    height_px: u16,
) -> (length: usize)
    requires
        old(cl)@.len() >= SIZE,
    ensures
        length == SIZE,
        final(cl)@ == in_memory(coordinate_words(mvp@, width_px, height_px)) + old(cl)@.skip(
            SIZE as int,
        ),
{
    let x: u32 = whole_float(width_px as u32 * 8);
    let y: u32 = negative_float(height_px as u32 * 8);
    let words: [u32; 20] = [
        mvp[0],
        mvp[4],
        mvp[1],
        mvp[7],
        mvp[5],
        mvp[3],
        mvp[6],
        mvp[2],
        mvp[8],
        mvp[11],
        mvp[9],
        mvp[10],
        mvp[15],
        mvp[12],
        mvp[13],
        mvp[14],
        x,
        y,
        HALF,
        HALF,
    ];
    assert(words@ =~= coordinate_words(mvp@, width_px, height_px));
    put_words(cl, &words)
}

/// Builds the uniforms of the vertex shader at the beginning of `cl`; gives their
/// length. `mvp` has the bits of the matrix, column by column.
pub fn build_vertex_shader_uniforms(
    cl: &mut [u8],
    mvp: &[u32; 16],
    width_px: u16,
    height_px: u16,
) -> (length: usize)
    requires
        old(cl)@.len() >= SIZE,
    ensures
        length == SIZE,
        final(cl)@ == in_memory(vertex_words(mvp@, width_px, height_px)) + old(cl)@.skip(
            SIZE as int,
        ),
{
    let x: u32 = whole_float(width_px as u32 * 8);
    let y: u32 = negative_float(height_px as u32 * 8);
    let words: [u32; 20] = [
        mvp[3],
        mvp[7],
        mvp[4],
        mvp[0],
        mvp[5],
        mvp[1],
        mvp[6],
        mvp[2],
        mvp[11],
        mvp[8],
        mvp[9],
        mvp[10],
        mvp[15],
        mvp[12],
        mvp[13],
        mvp[14],
        y,
        x,
        HALF,
        HALF,
    ];
    assert(words@ =~= vertex_words(mvp@, width_px, height_px));
    put_words(cl, &words)
}

} // verus!
