//! The GPU driver, and the lists and records that it is fed.

use std::cell::RefCell;
use std::collections::{HashMap, VecDeque};
use std::rc::Rc;

use rpi_hal::registers::{RegisterBlock, Registers};
use rpi_hal::v3d::bcl::{self, BclParams};
use rpi_hal::v3d::rcl::{self, RclParams};
use rpi_hal::v3d::shader_record::{self, ShaderRecordParams};
use rpi_hal::v3d::texture::{build_fragment_shader_uniforms, TextureParams};
use rpi_hal::v3d::uniforms::{
    build_coordinate_shader_uniforms, build_vertex_shader_uniforms, UNIFORM_COUNT,
};
use rpi_hal::v3d::{
    bus_address, flush, invalidate, CacheLines, DataCache, Error, GpuBuffer, V3d,
};

#[derive(Clone, Default)]
struct Gpu {
    /// What a register reads as, one after the other; the last stays.
    reads: Rc<RefCell<HashMap<u32, VecDeque<u32>>>>,
    writes: Rc<RefCell<Vec<(u32, u32)>>>,
}

impl Gpu {
    fn with(reads: &[(u32, &[u32])]) -> Gpu {
        let gpu = Gpu::default();
        for (offset, values) in reads {
            gpu.reads.borrow_mut().insert(*offset, values.iter().copied().collect());
        }
        gpu
    }

    fn driver(&self) -> V3d<Gpu> {
        V3d::new(RegisterBlock::new(self.clone()))
    }
}

impl Registers for Gpu {
    fn read(&mut self, offset: u32) -> u32 {
        let mut reads = self.reads.borrow_mut();
        match reads.get_mut(&offset) {
            None => offset,
            Some(values) => {
                if values.len() > 1 {
                    values.pop_front().unwrap()
                } else {
                    values[0]
                }
            }
        }
    }

    fn write(&mut self, offset: u32, value: u32) {
        self.writes.borrow_mut().push((offset, value));
    }
}

#[test]
fn a_frame_is_binned_then_rendered() {
    let gpu = Gpu::with(&[
        (0x134, &[0x1ff, 0x1ff, 0x200]),
        (0x100, &[0x20, 0x20, 0]),
        (0x104, &[0]),
    ]);
    let mut v3d = gpu.driver();
    assert_eq!(v3d.submit_frame((0xc000_1000, 0xc000_1060), (0xc000_2000, 0xc000_2040)), Ok(()));
    assert_eq!(
        *gpu.writes.borrow(),
        vec![
            (0x504, 0),
            (0x020, 4),
            (0x024, 0x0f0f_0f0f),
            (0x110, 0xc000_1000),
            (0x108, 0xc000_1060),
            (0x020, 4),
            (0x024, 0x0f0f_0000),
            (0x114, 0xc000_2000),
            (0x10c, 0xc000_2040),
        ]
    );
}

#[test]
fn a_pass_can_fail() {
    let gpu = Gpu::with(&[(0x134, &[5]), (0x100, &[0x08]), (0x104, &[0x08])]);
    let mut v3d = gpu.driver();
    assert_eq!(v3d.submit_bin((0, 0)), Err(Error::BinFailed));
    assert_eq!(v3d.submit_render((0, 0)), Err(Error::RenderFailed));
    let before = gpu.writes.borrow().len();
    assert_eq!(v3d.submit_frame((0, 0), (0, 0)), Err(Error::BinFailed));
    assert_eq!(gpu.writes.borrow().len(), before + 4);
}

#[test]
fn a_pass_that_does_not_stop_times_out() {
    let gpu = Gpu::with(&[(0x134, &[5]), (0x100, &[0x20]), (0x104, &[0x28])]);
    let mut v3d = gpu.driver();
    assert_eq!(v3d.submit_bin((0, 0)), Err(Error::BinTimeout));
    assert_eq!(v3d.submit_render((0, 0)), Err(Error::RenderTimeout));
}

#[test]
fn a_binning_pass_that_is_not_flushed_times_out() {
    let gpu = Gpu::with(&[(0x134, &[0x105]), (0x100, &[0])]);
    assert_eq!(gpu.driver().submit_bin((0, 0)), Err(Error::BinFlushTimeout));
}

#[test]
fn the_identity_and_the_counters_are_read_in_order() {
    let gpu = Gpu::default();
    let mut v3d = gpu.driver();
    assert_eq!(v3d.ident(), (0, 4, 8));
    gpu.writes.borrow_mut().clear();
    v3d.configure_performance_counters([3, 0x3f, 7, 31]);
    assert_eq!(
        *gpu.writes.borrow(),
        vec![
            (0x684, 3),
            (0x68c, 31),
            (0x694, 7),
            (0x69c, 31),
            (0x670, 0xffff),
            (0x674, 0x8000_000f),
        ]
    );
    v3d.clear_performance_counters();
    assert_eq!(gpu.writes.borrow().last(), Some(&(0x670, 0xffff)));
    assert_eq!(v3d.performance_counters(), [0x680, 0x688, 0x690, 0x698]);
    let status = v3d.debug_status();
    assert_eq!((status.ct0ca, status.ct1ca, status.ct0cs, status.ct1cs), (0x110, 0x114, 0x100, 0x104));
    assert_eq!((status.pcs, status.bfc, status.rfc), (0x130, 0x134, 0x138));
    assert_eq!((status.errstat, status.dbge, status.sqrsv1), (0xf20, 0xf00, 0x414));
    assert_eq!((status.ct00ra0, status.bxcf, status.vpacntl, status.vpmbase), (0x118, 0x310, 0x500, 0x504));
}

#[test]
fn the_gpu_sees_memory_past_its_cache() {
    assert_eq!(bus_address(0x0123_4567), 0xc123_4567);
    assert_eq!(bus_address(0x7fff_ffff), 0xffff_ffff);
    assert_ne!(bus_address(1), bus_address(2));
    assert_eq!(bus_address(0x4000_0001), bus_address(1));
}

#[derive(Default)]
struct Lines(Vec<(bool, u32, usize)>);

impl CacheLines for Lines {
    fn clean_range(&mut self, address: u32, len: usize) {
        self.0.push((true, address, len));
    }

    fn invalidate_range(&mut self, address: u32, len: usize) {
        self.0.push((false, address, len));
    }
}

#[test]
fn a_buffer_is_written_back_and_read_anew_whole() {
    let mut buffer = GpuBuffer::<64>::default();
    assert_eq!(buffer.as_bytes(), &[0; 64]);
    buffer.as_bytes_mut()[3] = 9;
    assert_eq!(buffer.as_bytes()[3], 9);
    assert_eq!(buffer.bus_address(0x1000), 0xc000_1000);
    let mut cache = DataCache::new(Lines::default());
    buffer.flush(&mut cache, 0x1000);
    buffer.invalidate(&mut cache, 0x1000);
    flush(&mut cache, 0x2000, 5);
    invalidate(&mut cache, 0x3000, 6);
    assert_eq!(
        cache.release().0,
        vec![(true, 0x1000, 64), (false, 0x1000, 64), (true, 0x2000, 5), (false, 0x3000, 6)]
    );
    assert_eq!(GpuBuffer::<2>::new().as_bytes(), &[0, 0]);
}

fn frame() -> BclParams {
    BclParams {
        tile_alloc_address: 0xc010_0000,
        tile_alloc_size: 0x8000,
        tile_state_address: 0xc020_0000,
        width_in_tiles: 10,
        height_in_tiles: 8,
        width_px: 640,
        height_px: 480,
        shader_state_address: 0xc030_0010,
        attribute_array_count: 2,
        index_buffer_address: 0xc040_0000,
        index_count: 36,
        max_index: 23,
        depth_test_enabled: true,
    }
}

/// The bytes of a list, field by field.
#[derive(Default)]
struct Expected(Vec<u8>);

impl Expected {
    fn byte(mut self, value: u8) -> Self {
        self.0.push(value);
        self
    }

    fn half(mut self, value: u16) -> Self {
        self.0.extend_from_slice(&value.to_le_bytes());
        self
    }

    fn word(mut self, value: u32) -> Self {
        self.0.extend_from_slice(&value.to_le_bytes());
        self
    }

    fn float(self, value: f32) -> Self {
        self.word(value.to_bits())
    }
}

fn binning_list(params: &BclParams) -> Vec<u8> {
    let list = Expected::default()
        .byte(0x70)
        .word(params.tile_alloc_address)
        .word(params.tile_alloc_size)
        .word(params.tile_state_address)
        .byte(params.width_in_tiles)
        .byte(params.height_in_tiles)
        .byte(0x44)
        .byte(0x06)
        .byte(0x38)
        .byte(0x12)
        .byte(0x66)
        .half(0)
        .half(0)
        .half(params.width_px)
        .half(params.height_px)
        .byte(0x60)
        .byte(0x07);
    let list = if params.depth_test_enabled {
        list.byte(0x90).byte(0x03)
    } else {
        list.byte(0x70).byte(0x02)
    };
    list.byte(0x65)
        .half(0)
        .half(0)
        .byte(0x62)
        .float(1.0)
        .byte(0x63)
        .float(1.0)
        .byte(0x69)
        .float(f32::from(params.width_px) / 2.0 * 16.0)
        .float(-(f32::from(params.height_px) / 2.0 * 16.0))
        .byte(0x6a)
        .float(0.5)
        .float(0.5)
        .byte(0x67)
        .half((f32::from(params.width_px) / 2.0 * 16.0) as u16)
        .half((f32::from(params.height_px) / 2.0 * 16.0) as u16)
        .byte(0x61)
        .word(0)
        .byte(0x40)
        .word(params.shader_state_address | u32::from(params.attribute_array_count & 7))
        .byte(0x20)
        .byte(0x14)
        .word(params.index_count)
        .word(params.index_buffer_address)
        .word(u32::from(params.max_index))
        .byte(0x07)
        .byte(0x04)
        .0
}

#[test]
fn a_binning_list_is_laid_out_byte_by_byte() {
    let mut without_depth = frame();
    without_depth.depth_test_enabled = false;
    without_depth.attribute_array_count = 8;
    let mut huge = frame();
    huge.width_px = 65535;
    huge.height_px = 0;
    let mut odd = frame();
    odd.width_px = 1;
    odd.height_px = 8191;
    for params in [frame(), without_depth, huge, odd] {
        let mut cl = [0xaa; 128];
        let length = bcl::build(&mut cl, &params);
        assert_eq!(length, bcl::SIZE);
        assert_eq!(cl[..length], binning_list(&params)[..]);
        assert_eq!(cl[length], 0xaa);
    }
}

#[test]
fn tile_state_is_whole_pages() {
    assert_eq!(bcl::tile_state_size(10, 8), 4096);
    assert_eq!(bcl::tile_state_size(0, 8), 0);
    assert_eq!(bcl::tile_state_size(30, 17), 24576);
    assert_eq!(bcl::tile_state_size(255, 255), 3_125_248);
}

fn picture(depth: Option<u32>) -> RclParams {
    RclParams {
        tile_alloc_address: 0xc010_0000,
        width_in_tiles: 2,
        height_in_tiles: 3,
        color_write_address: 0xde00_0000,
        depth_write_address: depth,
        width_px: 100,
        height_px: 150,
        clear_color_rgba8888: 0x1122_3344,
    }
}

#[test]
fn a_rendering_list_stores_every_tile() {
    for depth in [None, Some(0xc050_0000)] {
        let params = picture(depth);
        let mut list = Expected::default()
            .byte(0x71)
            .word(0xde00_0000)
            .half(100)
            .half(150)
            .half(4)
            .byte(0x72)
            .word(0x1122_3344)
            .word(0x1122_3344)
            .word(0x00ff_ffff)
            .byte(0)
            .byte(0x73)
            .byte(0)
            .byte(0)
            .byte(0x1c)
            .half(0)
            .word(0);
        for y in 0..3u8 {
            for x in 0..2u8 {
                list = list.byte(0x73).byte(x).byte(y);
                if x == 0 && y == 0 {
                    list = list.byte(0x08);
                }
                list = list.byte(0x11).word(0xc010_0000 + (u32::from(y) * 2 + u32::from(x)) * 32);
                if let Some(address) = depth {
                    list = list.byte(0x1c).half(0x2002).word(address).byte(0x73).byte(x).byte(y);
                }
                list = list.byte(if x == 1 && y == 2 { 0x19 } else { 0x18 });
            }
        }
        let mut cl = [0xaa; 200];
        let length = rcl::build(&mut cl, &params);
        assert_eq!(length, rcl::size(2, 3, depth.is_some()));
        assert_eq!(cl[..length], list.0[..]);
    }
    assert_eq!(rcl::size(2, 3, false), 90);
    assert_eq!(rcl::size(2, 3, true), 150);
}

#[test]
fn a_target_without_tiles_has_a_list_of_the_size_that_is_told() {
    for (width_in_tiles, height_in_tiles) in [(0, 0), (0, 3), (2, 0)] {
        for depth in [None, Some(0xc050_0000)] {
            let params = RclParams { width_in_tiles, height_in_tiles, ..picture(depth) };
            let mut cl = [0xaa; 40];
            let length = rcl::build(&mut cl, &params);
            assert_eq!(length, 35);
            assert_eq!(rcl::size(width_in_tiles, height_in_tiles, depth.is_some()), 35);
            assert_eq!(cl[35..], [0xaa; 5]);
        }
    }
}

#[test]
fn the_last_tile_list_may_begin_at_the_end_of_memory() {
    let params = RclParams {
        tile_alloc_address: 0xffff_ffdf,
        width_in_tiles: 2,
        height_in_tiles: 1,
        ..picture(None)
    };
    let mut cl = [0; 100];
    let length = rcl::build(&mut cl, &params);
    assert_eq!(length, rcl::size(2, 1, false));
    assert_eq!(cl[length - 6..length], [0x11, 0xff, 0xff, 0xff, 0xff, 0x19]);
}

#[test]
fn a_shader_record_names_the_shaders_and_the_attributes() {
    let params = ShaderRecordParams {
        fragment_shader_code_address: 0xc000_0100,
        fragment_shader_uniforms_address: 0xc000_0200,
        fragment_shader_num_varyings: 2,
        vertex_shader_code_address: 0xc000_0300,
        vertex_shader_uniforms_address: 0xc000_0400,
        coordinate_shader_code_address: 0xc000_0500,
        coordinate_shader_uniforms_address: 0xc000_0600,
        vertex_buffer_address: 0xc000_0700,
    };
    let record = Expected::default()
        .byte(5)
        .half(0)
        .byte(2)
        .word(0xc000_0100)
        .word(0xc000_0200)
        .half(0)
        .byte(3)
        .byte(24)
        .word(0xc000_0300)
        .word(0xc000_0400)
        .half(0)
        .byte(1)
        .byte(16)
        .word(0xc000_0500)
        .word(0xc000_0600)
        .word(0xc000_0700)
        .byte(15)
        .byte(24)
        .byte(0)
        .byte(0)
        .word(0xc000_0710)
        .byte(7)
        .byte(24)
        .byte(16)
        .byte(0)
        .0;
    let mut cl = [0xaa; 64];
    let length = shader_record::build(&mut cl, &params);
    assert_eq!(cl[..length], record[..]);
    assert_eq!(length, 52);
}

#[test]
fn a_texture_is_two_words() {
    let mut cl = [0u8; 8];
    let params = TextureParams { address: 0xc012_3000, width_px: 256, height_px: 2047 };
    assert_eq!(build_fragment_shader_uniforms(&mut cl, &params), 8);
    let words = Expected::default()
        .word(0xc012_3000)
        .word(2047 << 20 | 256 << 8 | 1 << 7 | 1 << 4)
        .0;
    assert_eq!(cl[..], words[..]);
}

#[test]
fn uniforms_come_in_the_order_that_each_shader_reads_them() {
    let mut mvp = [0u32; 16];
    for (i, value) in mvp.iter_mut().enumerate() {
        *value = (i as f32 + 0.25).to_bits();
    }
    let x = 640.0f32 / 2.0 * 16.0;
    let y = -(480.0f32 / 2.0 * 16.0);
    let mut cl = [0u8; 4 * UNIFORM_COUNT];
    assert_eq!(build_coordinate_shader_uniforms(&mut cl, &mvp, 640, 480), 80);
    let mut list = Expected::default();
    for i in [0, 4, 1, 7, 5, 3, 6, 2, 8, 11, 9, 10, 15, 12, 13, 14] {
        list = list.float(i as f32 + 0.25);
    }
    assert_eq!(cl[..], list.float(x).float(y).float(0.5).float(0.5).0[..]);
    assert_eq!(build_vertex_shader_uniforms(&mut cl, &mvp, 640, 480), 80);
    let mut list = Expected::default();
    for i in [3, 7, 4, 0, 5, 1, 6, 2, 11, 8, 9, 10, 15, 12, 13, 14] {
        list = list.float(i as f32 + 0.25);
    }
    assert_eq!(cl[..], list.float(y).float(x).float(0.5).float(0.5).0[..]);
}

#[test]
fn a_scale_is_the_float_that_it_stands_for() {
    let mvp = [0u32; 16];
    for size in [0u16, 1, 2, 3, 255, 256, 4095, 40000, 65535] {
        let mut cl = [0u8; 80];
        build_coordinate_shader_uniforms(&mut cl, &mvp, size, size);
        let scale = (f32::from(size) / 2.0 * 16.0).to_bits().to_le_bytes();
        let drop = (-(f32::from(size) / 2.0 * 16.0)).to_bits().to_le_bytes();
        assert_eq!(cl[64..68], scale);
        assert_eq!(cl[68..72], drop);
    }
}

#[test]
fn the_lists_and_the_shaders_agree_about_the_viewport() {
    let params = frame();
    let mut cl = [0u8; 128];
    bcl::build(&mut cl, &params);
    let mvp = [0u32; 16];
    let mut coordinate = [0u8; 80];
    let mut vertex = [0u8; 80];
    build_coordinate_shader_uniforms(&mut coordinate, &mvp, params.width_px, params.height_px);
    build_vertex_shader_uniforms(&mut vertex, &mvp, params.width_px, params.height_px);
    assert_eq!(cl[48..56], coordinate[64..72]);
    assert_eq!(cl[57..65], coordinate[72..80]);
    assert_eq!(vertex[64..68], coordinate[68..72]);
    assert_eq!(vertex[68..72], coordinate[64..68]);
    assert_eq!(vertex[72..80], coordinate[72..80]);
}
