//! The lists and records of a frame, as the hardware reads them.

use vstd::prelude::*;

use crate::bytes;
use crate::program::Program;
use crate::registers::Access;
use crate::v3d;
use crate::v3d::bcl;
use crate::v3d::bcl::BclParams;
use crate::v3d::list;
use crate::v3d::shader_record;
use crate::v3d::shader_record::ShaderRecordParams;
use crate::v3d::texture;
use crate::v3d::texture::TextureParams;
use crate::v3d::uniforms;
use crate::v3d::Error;

verus! {

/// The word at a place, low byte first.
pub open spec fn word(list: Seq<u8>, at: int) -> int {
    list[at] + 256 * (list[at + 1] + 256 * (list[at + 2] + 256 * list[at + 3]))
}

/// The half at a place, low byte first.
pub open spec fn half(list: Seq<u8>, at: int) -> int {
    list[at] + 256 * list[at + 1]
}

pub(crate) proof fn lemma_word(list: Seq<u8>, at: int, value: u32)
    requires
        0 <= at,
        at + 4 <= list.len(),
        list.subrange(at, at + 4) == bytes::le32_bytes(value),
    ensures
        word(list, at) == value,
{
    bytes::law_le32(value);
    let part = list.subrange(at, at + 4);
    assert(part[0] == list[at] && part[1] == list[at + 1] && part[2] == list[at + 2] && part[3]
        == list[at + 3]);
}

pub(crate) proof fn lemma_half(list: Seq<u8>, at: int, value: u16)
    requires
        0 <= at,
        at + 2 <= list.len(),
        list.subrange(at, at + 2) == bytes::le16_bytes(value),
    ensures
        half(list, at) == value,
{
    bytes::law_le16(value);
    let part = list.subrange(at, at + 2);
    assert(part[0] == list[at] && part[1] == list[at + 1]);
}

/// What a binning list sets up: where the tile lists and the tiles' state go, and how many
/// tiles there are. It then starts, with triangles whose indices are halves.
pub proof fn law_binning_setup(params: BclParams)
    ensures
        ({
            let l = bcl::binning_list(params);
            &&& l[0] == 0x70
            &&& word(l, 1) == params.tile_alloc_address
            &&& word(l, 5) == params.tile_alloc_size
            &&& word(l, 9) == params.tile_state_address
            &&& l[13] == params.width_in_tiles
            &&& l[14] == params.height_in_tiles
            &&& l[15] == 0x44
            &&& l[16] == 0x06
            &&& l[17] == 0x38
            &&& l[18] == 0x12
        }),
{
    bcl::law_binning_list(params);
    bcl::lemma_lengths(params);
    reveal(bcl::tile_binning_mode);
    reveal(bcl::start);
    let l = bcl::binning_list(params);
    assert(l.subrange(1, 5) =~= bytes::le32_bytes(params.tile_alloc_address));
    assert(l.subrange(5, 9) =~= bytes::le32_bytes(params.tile_alloc_size));
    assert(l.subrange(9, 13) =~= bytes::le32_bytes(params.tile_state_address));
    lemma_word(l, 1, params.tile_alloc_address);
    lemma_word(l, 5, params.tile_alloc_size);
    lemma_word(l, 9, params.tile_state_address);
}

/// The window that a binning list draws to begins in the corner and has the size of the
/// target. Both faces are drawn. With a depth test what is nearer is kept, and its depth,
/// and hidden tiles are dropped early; without one everything is drawn.
pub proof fn law_binning_window(params: BclParams)
    ensures
        ({
            let l = bcl::binning_list(params);
            let bits = l[29] + 256 * (l[30] + 256 * l[31]);
            &&& l[19] == 0x66
            &&& half(l, 20) == 0
            &&& half(l, 22) == 0
            &&& half(l, 24) == params.width_px
            &&& half(l, 26) == params.height_px
            &&& l[28] == 0x60
            &&& bits % 4096 == 7
            &&& bits / 4096 % 8 == if params.depth_test_enabled { 1int } else { 7 }
            &&& bits / 0x8000 % 2 == if params.depth_test_enabled { 1int } else { 0 }
            &&& bits / 0x1_0000 % 2 == if params.depth_test_enabled { 1int } else { 0 }
            &&& bits / 0x2_0000 == 1
        }),
{
    bcl::law_binning_list(params);
    bcl::lemma_lengths(params);
    reveal(bcl::clip_window);
    reveal(bcl::configuration);
    let l = bcl::binning_list(params);
    assert(l.subrange(24, 26) =~= bytes::le16_bytes(params.width_px));
    assert(l.subrange(26, 28) =~= bytes::le16_bytes(params.height_px));
    lemma_half(l, 24, params.width_px);
    lemma_half(l, 26, params.height_px);
}

/// A binning list has no depth offset, and points and lines of one pixel. It scales by half
/// the sides in sixteenths of a pixel, the height turned over, and puts the centre of the
/// screen, in the same units, in the middle, as far as a half can tell; depths go from 0 to
/// 1; and nothing is shaded flat.
pub proof fn law_binning_viewport(params: BclParams)
    ensures
        ({
            let l = bcl::binning_list(params);
            &&& l[32] == 0x65
            &&& word(l, 33) == 0
            &&& l[37] == 0x62
            &&& word(l, 38) == 0x3f80_0000
            &&& l[42] == 0x63
            &&& word(l, 43) == 0x3f80_0000
            &&& l[47] == 0x69
            &&& word(l, 48) == list::float_bits(8 * params.width_px)
            &&& word(l, 52) == 0x8000_0000 + list::float_bits(8 * params.height_px)
            &&& l[56] == 0x6a
            &&& word(l, 57) == 0x3f00_0000
            &&& word(l, 61) == 0x3f00_0000
            &&& l[65] == 0x67
            &&& half(l, 66) == if 8 * params.width_px <= 65535 { 8 * params.width_px } else {
                65535
            }
            &&& half(l, 68) == if 8 * params.height_px <= 65535 { 8 * params.height_px } else {
                65535
            }
            &&& l[70] == 0x61
            &&& word(l, 71) == 0
        }),
{
    bcl::law_binning_list(params);
    bcl::lemma_lengths(params);
    reveal(bcl::sizes);
    reveal(bcl::scaling);
    reveal(bcl::viewport);
    let l = bcl::binning_list(params);
    if params.height_px > 0 {
        list::law_float_bits(8 * params.height_px);
    }
    assert(l.subrange(38, 42) =~= bytes::le32_bytes(0x3f80_0000));
    lemma_word(l, 38, 0x3f80_0000);
    assert(l.subrange(43, 47) =~= bytes::le32_bytes(0x3f80_0000));
    lemma_word(l, 43, 0x3f80_0000);
    let across = list::float_bits(params.width_px * 8);
    let down = list::negative_bits(params.height_px * 8);
    assert(l.subrange(48, 52) =~= bytes::le32_bytes(across));
    lemma_word(l, 48, across);
    assert(l.subrange(52, 56) =~= bytes::le32_bytes(down));
    lemma_word(l, 52, down);
    assert(l.subrange(57, 61) =~= bytes::le32_bytes(0x3f00_0000));
    lemma_word(l, 57, 0x3f00_0000);
    assert(l.subrange(61, 65) =~= bytes::le32_bytes(0x3f00_0000));
    lemma_word(l, 61, 0x3f00_0000);
    assert(l.subrange(66, 68) =~= bytes::le16_bytes(bcl::centre(params.width_px)));
    lemma_half(l, 66, bcl::centre(params.width_px));
    assert(l.subrange(68, 70) =~= bytes::le16_bytes(bcl::centre(params.height_px)));
    lemma_half(l, 68, bcl::centre(params.height_px));
}

/// A binning list draws with the shaders that it is given, which have so many attributes,
/// eight being told as none, and with so many indices from where they are; then it is done.
pub proof fn law_binning_draws(params: BclParams)
    requires
        params.wf(),
    ensures
        ({
            let l = bcl::binning_list(params);
            &&& l[75] == 0x40
            &&& word(l, 76) - word(l, 76) % 16 == params.shader_state_address
            &&& word(l, 76) % 16 == if params.attribute_array_count == 8 { 0int } else {
                params.attribute_array_count as int
            }
            &&& l[80] == 0x20
            &&& l[81] == 0x14
            &&& word(l, 82) == params.index_count
            &&& word(l, 86) == params.index_buffer_address
            &&& word(l, 90) == params.max_index
            &&& l[94] == 0x07
            &&& l[95] == 0x04
        }),
{
    bcl::law_binning_list(params);
    bcl::lemma_lengths(params);
    reveal(bcl::shader_state);
    reveal(bcl::indexed_primitives);
    let l = bcl::binning_list(params);
    assert(l.subrange(76, 80) =~= bytes::le32_bytes(bcl::shaders(params)));
    lemma_word(l, 76, bcl::shaders(params));
    assert(l.subrange(82, 86) =~= bytes::le32_bytes(params.index_count));
    lemma_word(l, 82, params.index_count);
    assert(l.subrange(86, 90) =~= bytes::le32_bytes(params.index_buffer_address));
    lemma_word(l, 86, params.index_buffer_address);
    assert(l.subrange(90, 94) =~= bytes::le32_bytes(params.max_index as u32));
    lemma_word(l, 90, params.max_index as u32);
}

/// Where a shader record has its shaders: the code and the uniforms of each. The vertex
/// shader takes both attributes, 24 bytes, and the coordinate shader the first, 16 bytes.
pub proof fn law_record_shaders(params: ShaderRecordParams)
    ensures
        ({
            let r = shader_record::record(params);
            &&& half(r, 0) == 5
            &&& r[2] == 0
            &&& r[3] == params.fragment_shader_num_varyings
            &&& word(r, 4) == params.fragment_shader_code_address
            &&& word(r, 8) == params.fragment_shader_uniforms_address
            &&& half(r, 12) == 0
            &&& r[14] == 3
            &&& r[15] == 24
            &&& word(r, 16) == params.vertex_shader_code_address
            &&& word(r, 20) == params.vertex_shader_uniforms_address
            &&& half(r, 24) == 0
            &&& r[26] == 1
            &&& r[27] == 16
            &&& word(r, 28) == params.coordinate_shader_code_address
            &&& word(r, 32) == params.coordinate_shader_uniforms_address
        }),
{
    shader_record::law_record(params);
    reveal(shader_record::shaders);
    let r = shader_record::record(params);
    assert(r.subrange(4, 8) =~= bytes::le32_bytes(params.fragment_shader_code_address));
    lemma_word(r, 4, params.fragment_shader_code_address);
    assert(r.subrange(8, 12) =~= bytes::le32_bytes(params.fragment_shader_uniforms_address));
    lemma_word(r, 8, params.fragment_shader_uniforms_address);
    assert(r.subrange(16, 20) =~= bytes::le32_bytes(params.vertex_shader_code_address));
    lemma_word(r, 16, params.vertex_shader_code_address);
    assert(r.subrange(20, 24) =~= bytes::le32_bytes(params.vertex_shader_uniforms_address));
    lemma_word(r, 20, params.vertex_shader_uniforms_address);
    assert(r.subrange(28, 32) =~= bytes::le32_bytes(params.coordinate_shader_code_address));
    lemma_word(r, 28, params.coordinate_shader_code_address);
    assert(r.subrange(32, 36) =~= bytes::le32_bytes(params.coordinate_shader_uniforms_address));
    lemma_word(r, 32, params.coordinate_shader_uniforms_address);
}

/// Where a shader record has its attributes: sixteen bytes of position at the start of each
/// vertex and eight bytes of texture behind them, with 24 bytes from one vertex to the next.
/// The vertex shader finds the second where the first ends.
pub proof fn law_record_attributes(params: ShaderRecordParams)
    requires
        params.vertex_buffer_address + 16 <= u32::MAX,
    ensures
        ({
            let r = shader_record::record(params);
            &&& word(r, 36) == params.vertex_buffer_address
            &&& r[40] + 1 == 16
            &&& r[41] == 24
            &&& r[42] == 0
            &&& r[43] == 0
            &&& word(r, 44) == params.vertex_buffer_address + 16
            &&& r[48] + 1 == 8
            &&& r[49] == 24
            &&& r[50] == 16
            &&& r[51] == 0
        }),
{
    shader_record::law_record(params);
    reveal(shader_record::attributes);
    let r = shader_record::record(params);
    let buffer = params.vertex_buffer_address;
    assert(r.subrange(36, 40) =~= bytes::le32_bytes(buffer));
    lemma_word(r, 36, buffer);
    assert(r.subrange(44, 48) =~= bytes::le32_bytes((buffer + 16) as u32));
    lemma_word(r, 44, (buffer + 16) as u32);
}

/// What the uniforms of a texture say: where it is, in the first word; and in the second its
/// width from bit 8 on and its height from bit 20 on, in eleven bits each, and that the
/// nearest texel is taken, near and far.
pub proof fn law_texture(params: TextureParams)
    requires
        params.wf(),
    ensures
        ({
            let u = texture::texture_uniforms(params);
            &&& u.len() == 8
            &&& word(u, 0) == params.address
            &&& word(u, 4) / 256 % 2048 == params.width_px
            &&& word(u, 4) / 0x10_0000 % 2048 == params.height_px
            &&& word(u, 4) % 256 == 0x90
            &&& word(u, 4) / 0x8_0000 % 2 == 0
            &&& word(u, 4) < 0x8000_0000
        }),
{
    let u = texture::texture_uniforms(params);
    assert(u.subrange(0, 4) =~= bytes::le32_bytes(params.address));
    lemma_word(u, 0, params.address);
    assert(u.subrange(4, 8) =~= bytes::le32_bytes(texture::size_word(params)));
    lemma_word(u, 4, texture::size_word(params));
    lemma_sizes(params.width_px as int, params.height_px as int);
}

proof fn lemma_sizes(width: int, height: int)
    requires
        0 <= width < 2048,
        0 <= height < 2048,
    ensures
        ({
            let w = height * 0x10_0000 + width * 0x100 + 0x90;
            &&& 0 <= w < 0x8000_0000
            &&& w / 256 % 2048 == width
            &&& w / 0x10_0000 % 2048 == height
            &&& w % 256 == 0x90
            &&& w / 0x8_0000 % 2 == 0
        }),
{
    let w = height * 0x10_0000 + width * 0x100 + 0x90;
    assert(w / 256 == height * 4096 + width);
    assert(w / 0x8_0000 == height * 2);
    assert(w / 0x10_0000 == height);
}

/// Words in memory are one behind the other, four bytes each.
pub proof fn law_words_in_memory(words: Seq<u32>, at: int)
    requires
        0 <= at < words.len(),
    ensures
        uniforms::in_memory(words).len() == 4 * words.len(),
        word(uniforms::in_memory(words), 4 * at) == words[at],
    decreases words.len(),
{
    lemma_length(words);
    lemma_length(words.drop_last());
    let all = uniforms::in_memory(words);
    let front = uniforms::in_memory(words.drop_last());
    if at == words.len() - 1 {
        assert(all.subrange(4 * at, 4 * at + 4) =~= bytes::le32_bytes(words.last()));
        lemma_word(all, 4 * at, words.last());
    } else {
        law_words_in_memory(words.drop_last(), at);
        assert(all[4 * at] == front[4 * at] && all[4 * at + 1] == front[4 * at + 1] && all[4 * at
            + 2] == front[4 * at + 2] && all[4 * at + 3] == front[4 * at + 3]);
    }
}

proof fn lemma_length(words: Seq<u32>)
    ensures
        uniforms::in_memory(words).len() == 4 * words.len(),
    decreases words.len(),
{
    if words.len() > 0 {
        lemma_length(words.drop_last());
    }
}

/// What each shader reads of a matrix, one element after the other, and then the scales.
/// The two read the first eight elements in different orders, and the scales the other way
/// round.
pub proof fn law_matrix_words(mvp: Seq<u32>, width: u16, height: u16)
    requires
        mvp.len() == 16,
    ensures
        uniforms::coordinate_words(mvp, width, height) == seq![
            mvp[0],
            mvp[4],
            mvp[1],
            mvp[7],
            mvp[5],
            mvp[3],
            mvp[6],
            mvp[2],
            mvp[8],
            mvp[11],
            mvp[9],
            mvp[10],
            mvp[15],
            mvp[12],
            mvp[13],
            mvp[14],
            list::float_bits(8 * width),
            (0x8000_0000 + list::float_bits(8 * height)) as u32,
            0x3f00_0000,
            0x3f00_0000,
        ],
        uniforms::vertex_words(mvp, width, height) == seq![
            mvp[3],
            mvp[7],
            mvp[4],
            mvp[0],
            mvp[5],
            mvp[1],
            mvp[6],
            mvp[2],
            mvp[11],
            mvp[8],
            mvp[9],
            mvp[10],
            mvp[15],
            mvp[12],
            mvp[13],
            mvp[14],
            (0x8000_0000 + list::float_bits(8 * height)) as u32,
            list::float_bits(8 * width),
            0x3f00_0000,
            0x3f00_0000,
        ],
{
}

/// Binning clears the caches, notes how many frames have been binned, and gives the first
/// thread its list, the end of it last, which starts it. It is watched until it has stopped;
/// then the count is watched until it has changed.
pub proof fn law_binning_steps(
    start: u32,
    end: u32,
    count: u32,
    status: u32,
    later: u32,
    done: u32,
)
    requires
        status / 32 % 2 == 0,
    ensures
        ({
            let program = v3d::bin_program(start, end);
            let six = seq![done, done, count, done, done, status];
            let asked = seq![
                Access::Write(0x020, 4),
                Access::Write(0x024, 0x0f0f_0f0f),
                Access::Read(0x134),
                Access::Write(0x110, start),
                Access::Write(0x108, end),
                Access::Read(0x100),
            ];
            &&& status / 8 % 2 == 1 ==> program.asked(six) == asked && program.given(six)
                == Program::<Access, u32, Result<(), Error>>::Return(Err(Error::BinFailed))
            &&& status / 8 % 2 == 0 ==> program.asked(six) == asked.push(Access::Read(0x134))
            &&& status / 8 % 2 == 0 && later % 256 != count % 256 ==> program.given(six.push(later))
                == Program::<Access, u32, Result<(), Error>>::Return(Ok(()))
            &&& status / 8 % 2 == 0 && later % 256 == count % 256 ==> program.asked(six.push(later))
                == asked.push(Access::Read(0x134)).push(Access::Read(0x134))
        }),
{
    assert((status & 0x20 != 0) == (status / 32 % 2 == 1) && (status & 0x8 != 0) == (status / 8 % 2
        == 1)) by (bit_vector);
    reveal_with_fuel(Program::asked, 9);
    reveal_with_fuel(Program::given, 9);
    reveal_with_fuel(Program::bind, 3);
    reveal_with_fuel(v3d::wait_program, 2);
    reveal_with_fuel(v3d::flushed_program, 3);
    let a = seq![done, done, count, done, done, status];
    let b = a.push(later);
    lemma_skips(a);
    lemma_skips(b);
    assert(b.skip(1).skip(1).skip(1).skip(1).skip(1).skip(1)[0] == later);
    assert(b.skip(1).skip(1).skip(1).skip(1).skip(1).skip(1).skip(1).len() == 0);
    assert(a.skip(1).skip(1).skip(1).skip(1).skip(1).skip(1).len() == 0);
    let program = v3d::bin_program(start, end);
    let asked = seq![
        Access::Write(0x020, 4),
        Access::Write(0x024, 0x0f0f_0f0f),
        Access::Read(0x134),
        Access::Write(0x110, start),
        Access::Write(0x108, end),
        Access::Read(0x100),
    ];
    if status / 8 % 2 == 1 {
        assert(program.asked(a) =~= asked);
    } else {
        assert(program.asked(a) =~= asked.push(Access::Read(0x134)));
        assert(later % 256 == count % 256 ==> program.asked(b) =~= asked.push(
            Access::Read(0x134),
        ).push(Access::Read(0x134)));
    }
}

proof fn lemma_skips(a: Seq<u32>)
    requires
        a.len() >= 6,
    ensures
        a.skip(1)[0] == a[1],
        a.skip(1).skip(1)[0] == a[2],
        a.skip(1).skip(1).skip(1)[0] == a[3],
        a.skip(1).skip(1).skip(1).skip(1)[0] == a[4],
        a.skip(1).skip(1).skip(1).skip(1).skip(1)[0] == a[5],
{
}

/// Rendering clears the caches that it reads through, and gives the second thread its list,
/// the end of it last, which starts it. It is watched until it has stopped.
pub proof fn law_rendering_steps(start: u32, end: u32, status: u32, done: u32)
    ensures
        ({
            let program = v3d::render_program(start, end);
            let answers = seq![done, done, done, done, status];
            let asked = seq![
                Access::Write(0x020, 4),
                Access::Write(0x024, 0x0f0f_0000),
                Access::Write(0x114, start),
                Access::Write(0x10c, end),
                Access::Read(0x104),
            ];
            let stopped = status / 32 % 2 == 0;
            let failed = status / 8 % 2 == 1;
            &&& stopped ==> program.asked(answers) == asked
            &&& stopped && failed ==> program.given(answers) == Program::<
                Access,
                u32,
                Result<(), Error>,
            >::Return(Err(Error::RenderFailed))
            &&& stopped && !failed ==> program.given(answers) == Program::<
                Access,
                u32,
                Result<(), Error>,
            >::Return(Ok(()))
            &&& !stopped ==> program.asked(answers) == asked.push(Access::Read(0x104))
        }),
{
    assert((status & 0x20 != 0) == (status / 32 % 2 == 1) && (status & 0x8 != 0) == (status / 8 % 2
        == 1)) by (bit_vector);
    reveal_with_fuel(Program::asked, 7);
    reveal_with_fuel(Program::given, 7);
    reveal_with_fuel(v3d::wait_program, 3);
    let a = seq![done, done, done, done, status];
    assert(a.skip(1).skip(1).skip(1).skip(1)[0] == status);
    assert(a.skip(1).skip(1).skip(1).skip(1).skip(1).len() == 0);
    let program = v3d::render_program(start, end);
    let asked = seq![
        Access::Write(0x020, 4),
        Access::Write(0x024, 0x0f0f_0000),
        Access::Write(0x114, start),
        Access::Write(0x10c, end),
        Access::Read(0x104),
    ];
    assert(status / 32 % 2 == 0 ==> program.asked(a) =~= asked);
    assert(status / 32 % 2 == 1 ==> program.asked(a) =~= asked.push(Access::Read(0x104)));
}

/// The performance counters: each is told what to count, in five bits, at eight bytes from
/// the one before it; then all are cleared, and the first four are enabled.
pub proof fn law_counters(sources: Seq<u8>, done: u32)
    requires
        sources.len() == 4,
    ensures
        v3d::configure_program(sources).asked(seq![done, done, done, done, done, done]) == seq![
            Access::Write(0x684, (sources[0] % 32) as u32),
            Access::Write(0x68c, (sources[1] % 32) as u32),
            Access::Write(0x694, (sources[2] % 32) as u32),
            Access::Write(0x69c, (sources[3] % 32) as u32),
            Access::Write(0x670, 0xffff),
            Access::Write(0x674, 0x8000_000f),
        ],
        v3d::counter_registers() == seq![0x680u32, 0x688u32, 0x690u32, 0x698u32],
{
    reveal_with_fuel(Program::asked, 8);
    let a = seq![done, done, done, done, done, done];
    lemma_skips(a);
    assert(a.skip(1).skip(1).skip(1).skip(1).skip(1).skip(1).len() == 0);
    assert(v3d::counter_registers() =~= seq![0x680u32, 0x688u32, 0x690u32, 0x698u32]);
}

/// Registers that are read one after the other give each what it reads as.
pub proof fn law_read_all(offsets: Seq<u32>, values: Seq<u32>, world: spec_fn(Access) -> u32)
    requires
        values.len() <= offsets.len(),
    ensures
        v3d::read_all_program(offsets, values).returns_in(world) == Some(
            values + Seq::new(
                (offsets.len() - values.len()) as nat,
                |i: int| world(Access::Read(offsets[values.len() + i])),
            ),
        ),
    decreases offsets.len() - values.len(),
{
    let all = values + Seq::new(
        (offsets.len() - values.len()) as nat,
        |i: int| world(Access::Read(offsets[values.len() + i])),
    );
    if values.len() < offsets.len() {
        let next = values.push(world(Access::Read(offsets[values.len() as int])));
        law_read_all(offsets, next, world);
        assert(next + Seq::new(
            (offsets.len() - next.len()) as nat,
            |i: int| world(Access::Read(offsets[next.len() + i])),
        ) =~= all);
    } else {
        assert(all =~= values);
    }
}

/// Each part of the status is what its register reads as.
pub proof fn law_status(world: spec_fn(Access) -> u32)
    ensures
        v3d::read_all_program(v3d::status_registers(), Seq::empty()).returns_in(world) matches Some(
            values,
        ) && {
            let status = v3d::status_in(values);
            &&& status.ct0cs == world(Access::Read(0x100))
            &&& status.ct1cs == world(Access::Read(0x104))
            &&& status.ct0ca == world(Access::Read(0x110))
            &&& status.ct1ca == world(Access::Read(0x114))
            &&& status.ct00ra0 == world(Access::Read(0x118))
            &&& status.ct0lc == world(Access::Read(0x120))
            &&& status.ct1lc == world(Access::Read(0x124))
            &&& status.ct0pc == world(Access::Read(0x128))
            &&& status.ct1pc == world(Access::Read(0x12c))
            &&& status.pcs == world(Access::Read(0x130))
            &&& status.bfc == world(Access::Read(0x134))
            &&& status.rfc == world(Access::Read(0x138))
            &&& status.bpca == world(Access::Read(0x300))
            &&& status.bpcs == world(Access::Read(0x304))
            &&& status.bpoa == world(Access::Read(0x308))
            &&& status.bpos == world(Access::Read(0x30c))
            &&& status.bxcf == world(Access::Read(0x310))
            &&& status.sqrsv0 == world(Access::Read(0x410))
            &&& status.sqrsv1 == world(Access::Read(0x414))
            &&& status.vpacntl == world(Access::Read(0x500))
            &&& status.vpmbase == world(Access::Read(0x504))
            &&& status.dbge == world(Access::Read(0xf00))
            &&& status.fdbgo == world(Access::Read(0xf04))
            &&& status.fdbgb == world(Access::Read(0xf08))
            &&& status.errstat == world(Access::Read(0xf20))
        },
{
    law_read_all(v3d::status_registers(), Seq::empty(), world);
}

/// On the bus, memory is in a window of a gigabyte that begins at three.
pub proof fn law_bus_window(address: u32)
    ensures
        v3d::on_bus(address) == 0xc000_0000 + address % 0x4000_0000,
{
}

} // verus!
