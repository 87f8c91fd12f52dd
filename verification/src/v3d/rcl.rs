//! The control list of the render pass: tile by tile, what was binned for it.

use vstd::prelude::*;

use crate::bytes;
use crate::bytes::{u16_bytes, u32_bytes};
use crate::v3d::list;
use crate::v3d::list::put;

pub mod tiles;

verus! {

/// Bytes in front of the tiles.
pub const HEADER_SIZE: usize = 35;

/// Bytes for a tile.
pub const TILE_SIZE: usize = 9;

/// Bytes for a tile whose depth is stored.
pub const DEEP_TILE_SIZE: usize = 19;

/// What varies from list to list. Addresses are those on the bus.
#[derive(Clone, Copy, Debug, PartialEq, Eq, Structural)]
pub struct RclParams {
    /// Where the binning pass put the tile lists.
    pub tile_alloc_address: u32,
    pub width_in_tiles: u8,
    pub height_in_tiles: u8,
    /// Where the colours go.
    pub color_write_address: u32,
    /// Where the depths go, if they are stored.
    pub depth_write_address: Option<u32>,
    pub width_px: u16,
    pub height_px: u16,
    pub clear_color_rgba8888: u32,
}

impl RclParams {
    /// How many tiles there are.
    pub open spec fn tiles(self) -> int {
        self.width_in_tiles * self.height_in_tiles
    }

    /// Every tile list has an address.
    pub open spec fn wf(self) -> bool {
        self.tiles() == 0 || self.tile_alloc_address + (self.tiles() - 1) * 32 <= u32::MAX
    }
}

/// Bytes for each tile.
pub open spec fn tile_size(with_depth: bool) -> int {
    if with_depth {
        DEEP_TILE_SIZE as int
    } else {
        TILE_SIZE as int
    }
}

/// The length of a list for so many tiles. The first tile takes a byte more, to wait for
/// the binning pass.
pub open spec fn list_size(tiles: int, with_depth: bool) -> int {
    HEADER_SIZE + tile_size(with_depth) * tiles + (if tiles > 0 {
        1int
    } else {
        0
    })
}

/// The length of the list for a target of so many tiles.
pub fn size(width_in_tiles: u8, height_in_tiles: u8, with_depth: bool) -> (length: usize)
    ensures
        length == list_size(width_in_tiles * height_in_tiles, with_depth),
{
    assert(0 <= width_in_tiles * height_in_tiles <= 255 * 255) by (nonlinear_arith)
        requires
            width_in_tiles <= 255,
            height_in_tiles <= 255,
    ;
    let tile_count: usize = width_in_tiles as usize * height_in_tiles as usize;
    let first: usize = if tile_count > 0 {
        1
    } else {
        0
    };
    if with_depth {
        HEADER_SIZE + DEEP_TILE_SIZE * tile_count + first
    } else {
        HEADER_SIZE + TILE_SIZE * tile_count + first
    }
}

/// Select a tile.
pub open spec fn coordinates(x: u8, y: u8) -> Seq<u8> {
    seq![0x73u8, x, y]
}

/// The target, what it is cleared to, and an empty store that clears the first
/// tile.
#[verifier::opaque]
pub open spec fn header(params: RclParams) -> Seq<u8> {
    seq![0x71u8] + bytes::le32_bytes(params.color_write_address) + bytes::le16_bytes(
        params.width_px,
    ) + bytes::le16_bytes(params.height_px) + seq![0x04u8, 0x00u8, 0x72u8] + bytes::le32_bytes(
        params.clear_color_rgba8888,
    ) + bytes::le32_bytes(params.clear_color_rgba8888) + seq![
        0xffu8,
        0xffu8,
        0xffu8,
        0x00u8,
        0x00u8,
    ] + coordinates(0, 0) + seq![0x1cu8, 0u8, 0u8, 0u8, 0u8, 0u8, 0u8]
}

/// Where the list of a tile is.
pub open spec fn tile_address(params: RclParams, x: int, y: int) -> u32 {
    (params.tile_alloc_address + (y * params.width_in_tiles + x) * 32) as u32
}

/// Select a tile, wait for the binning pass if it is the first one, and draw what was
/// binned for it.
#[verifier::opaque]
pub open spec fn draw(params: RclParams, x: int, y: int) -> Seq<u8> {
    coordinates(x as u8, y as u8) + (if x == 0 && y == 0 {
        seq![0x08u8]
    } else {
        Seq::empty()
    }) + seq![0x11u8] + bytes::le32_bytes(tile_address(params, x, y))
}

/// Store a tile: its depths, if they are stored, and its colours. The last tile ends
/// the frame.
#[verifier::opaque]
pub open spec fn store(params: RclParams, x: int, y: int) -> Seq<u8> {
    (match params.depth_write_address {
        Some(address) => seq![0x1cu8, 0x02u8, 0x20u8] + bytes::le32_bytes(address) + coordinates(
            x as u8,
            y as u8,
        ),
        None => Seq::empty(),
    }) + seq![
        if x == params.width_in_tiles - 1 && y == params.height_in_tiles - 1 {
            0x19u8
        } else {
            0x18u8
        },
    ]
}

/// The first so many tiles of a row.
pub open spec fn row(params: RclParams, y: int, count: int) -> Seq<u8>
    decreases count,
{
    if count <= 0 {
        Seq::empty()
    } else {
        row(params, y, count - 1) + draw(params, count - 1, y) + store(params, count - 1, y)
    }
}

/// The first so many rows.
pub open spec fn rows(params: RclParams, count: int) -> Seq<u8>
    decreases count,
{
    if count <= 0 {
        Seq::empty()
    } else {
        rows(params, count - 1) + row(params, count - 1, params.width_in_tiles as int)
    }
}

/// The whole list.
pub open spec fn rendering_list(params: RclParams) -> Seq<u8> {
    header(params) + rows(params, params.height_in_tiles as int)
}

proof fn lemma_header(params: RclParams)
    ensures
        header(params).len() == HEADER_SIZE,
{
    reveal(header);
}

proof fn lemma_tile(params: RclParams, x: int, y: int)
    ensures
        draw(params, x, y).len() == if x == 0 && y == 0 {
            9int
        } else {
            8
        },
        store(params, x, y).len() == tile_size(params.depth_write_address is Some) - 8,
        store(params, x, y).last() == if x == params.width_in_tiles - 1 && y
            == params.height_in_tiles - 1 {
            0x19u8
        } else {
            0x18u8
        },
{
    reveal(draw);
    reveal(store);
}

/// One byte more than the tiles take, once the first tile is there.
pub open spec fn extra(x: int, y: int) -> int {
    if x > 0 || y > 0 {
        1
    } else {
        0
    }
}

proof fn lemma_row(params: RclParams, y: int, count: int)
    requires
        0 <= count,
        0 <= y,
    ensures
        row(params, y, count).len() == tile_size(params.depth_write_address is Some) * count + (
        if y == 0 {
            extra(count, 0)
        } else {
            0
        }),
    decreases count,
{
    let each = tile_size(params.depth_write_address is Some);
    if count > 0 {
        lemma_row(params, y, count - 1);
        lemma_tile(params, count - 1, y);
        assert(each * count == each * (count - 1) + each) by (nonlinear_arith);
    } else {
        assert(each * 0 == 0);
    }
}

proof fn lemma_rows(params: RclParams, count: int)
    requires
        0 <= count,
    ensures
        rows(params, count).len() == tile_size(params.depth_write_address is Some) * (count
            * params.width_in_tiles) + (if params.width_in_tiles > 0 {
            extra(0, count)
        } else {
            0
        }),
    decreases count,
{
    let each = tile_size(params.depth_write_address is Some);
    let width = params.width_in_tiles as int;
    if count > 0 {
        lemma_rows(params, count - 1);
        lemma_row(params, count - 1, width);
        assert(each * (count * width) == each * ((count - 1) * width) + each * width)
            by (nonlinear_arith);
    } else {
        assert(each * (0 * width) == 0) by (nonlinear_arith);
    }
}

/// A list is as long as it is said to be, and if there are tiles, its last byte ends the
/// frame.
pub proof fn law_rendering_list(params: RclParams)
    ensures
        rendering_list(params).len() == list_size(
            params.tiles(),
            params.depth_write_address is Some,
        ),
        params.tiles() > 0 ==> rendering_list(params).last() == 0x19,
{
    let width = params.width_in_tiles as int;
    let height = params.height_in_tiles as int;
    lemma_header(params);
    lemma_rows(params, height);
    assert(height * width == width * height) by (nonlinear_arith);
    assert(width * height > 0 <==> width > 0 && height > 0) by (nonlinear_arith)
        requires
            0 <= width,
            0 <= height,
    ;
    if params.tiles() > 0 {
        lemma_tile(params, width - 1, height - 1);
        lemma_row(params, height - 1, width);
        let end = row(params, height - 1, width);
        assert(end.len() > 0 && end.last() == 0x19);
        assert(rows(params, height).last() == end.last());
    }
}

fn put_header(cl: &mut [u8], params: &RclParams) -> (end: usize)
    requires
        HEADER_SIZE <= old(cl)@.len(),
    ensures
        end == HEADER_SIZE,
        list::laid(old(cl)@, 0, header(*params), final(cl)@),
{
    proof {
        reveal(header);
    }
    let target: [u8; 4] = u32_bytes(params.color_write_address);
    let width: [u8; 2] = u16_bytes(params.width_px);
    let height: [u8; 2] = u16_bytes(params.height_px);
    let color: [u8; 4] = u32_bytes(params.clear_color_rgba8888);
    let packet: [u8; 35] = [
        0x71,
        target[0],
        target[1],
        target[2],
        target[3],
        width[0],
        width[1],
        height[0],
        height[1],
        0x04,
        0x00,
        0x72,
        color[0],
        color[1],
        color[2],
        color[3],
        color[0],
        color[1],
        color[2],
        color[3],
        0xff,
        0xff,
        0xff,
        0x00,
        0x00,
        0x73,
        0,
        0,
        0x1c,
        0,
        0,
        0,
        0,
        0,
        0,
    ];
    assert(packet@ =~= header(*params));
    put(cl, 0, &packet)
}

fn put_draw(cl: &mut [u8], at: usize, params: &RclParams, x: u8, y: u8, address: u32) -> (end:
    usize)
    requires
        at + draw(*params, x as int, y as int).len() <= old(cl)@.len(),
        address == tile_address(*params, x as int, y as int),
    ensures
        end == at + draw(*params, x as int, y as int).len(),
        list::laid(old(cl)@, at as int, draw(*params, x as int, y as int), final(cl)@),
{
    proof {
        reveal(draw);
    }
    let address: [u8; 4] = u32_bytes(address);
    if x == 0 && y == 0 {
        let packet: [u8; 9] = [
            0x73,
            x,
            y,
            0x08,
            0x11,
            address[0],
            address[1],
            address[2],
            address[3],
        ];
        assert(packet@ =~= draw(*params, x as int, y as int));
        put(cl, at, &packet)
    } else {
        let packet: [u8; 8] = [
            0x73,
            x,
            y,
            0x11,
            address[0],
            address[1],
            address[2],
            address[3],
        ];
        assert(packet@ =~= draw(*params, x as int, y as int));
        put(cl, at, &packet)
    }
}

fn put_store(cl: &mut [u8], at: usize, params: &RclParams, x: u8, y: u8) -> (end: usize)
    requires
        at + store(*params, x as int, y as int).len() <= old(cl)@.len(),
    ensures
        end == at + store(*params, x as int, y as int).len(),
        list::laid(old(cl)@, at as int, store(*params, x as int, y as int), final(cl)@),
{
    proof {
        reveal(store);
    }
    let last: u8 = if x as u32 + 1 == params.width_in_tiles as u32 && y as u32 + 1
        == params.height_in_tiles as u32 {
        0x19
    } else {
        0x18
    };
    match params.depth_write_address {
        Some(address) => {
            let address: [u8; 4] = u32_bytes(address);
            let packet: [u8; 11] = [
                0x1c,
                0x02,
                0x20,
                address[0],
                address[1],
                address[2],
                address[3],
                0x73,
                x,
                y,
                last,
            ];
            assert(packet@ =~= store(*params, x as int, y as int));
            put(cl, at, &packet)
        },
        None => {
            let packet: [u8; 1] = [last];
            assert(packet@ =~= store(*params, x as int, y as int));
            put(cl, at, &packet)
        },
    }
}

proof fn lemma_place(params: RclParams, x: int, y: int)
    requires
        params.wf(),
        0 <= x < params.width_in_tiles,
        0 <= y < params.height_in_tiles,
    ensures
        0 <= y * params.width_in_tiles + x < params.tiles(),
        params.tile_alloc_address + (y * params.width_in_tiles + x) * 32 <= u32::MAX,
{
    let width = params.width_in_tiles as int;
    let height = params.height_in_tiles as int;
    assert(0 <= y * width + x < width * height) by (nonlinear_arith)
        requires
            0 <= x < width,
            0 <= y < height,
    ;
}

fn put_row(cl: &mut [u8], at: usize, params: &RclParams, y: u8) -> (end: usize)
    requires
        params.wf(),
        y < params.height_in_tiles,
        at + row(*params, y as int, params.width_in_tiles as int).len() <= old(cl)@.len(),
    ensures
        end == at + row(*params, y as int, params.width_in_tiles as int).len(),
        list::laid(
            old(cl)@,
            at as int,
            row(*params, y as int, params.width_in_tiles as int),
            final(cl)@,
        ),
{
    let mut x: u8 = 0;
    let mut place: usize = at;
    assert(cl@.take(at as int) + Seq::<u8>::empty() =~= cl@.take(at as int));
    while x < params.width_in_tiles
        invariant
            params.wf(),
            y < params.height_in_tiles,
            x <= params.width_in_tiles,
            cl@.len() == old(cl)@.len(),
            at + row(*params, y as int, params.width_in_tiles as int).len() <= cl@.len(),
            place == at + row(*params, y as int, x as int).len(),
            list::laid(old(cl)@, at as int, row(*params, y as int, x as int), cl@),
        decreases params.width_in_tiles - x,
    {
        let ghost before = row(*params, y as int, x as int);
        let ghost drawing = draw(*params, x as int, y as int);
        let ghost storing = store(*params, x as int, y as int);
        proof {
            lemma_place(*params, x as int, y as int);
            lemma_tile(*params, x as int, y as int);
            lemma_row(*params, y as int, x as int);
            lemma_row(*params, y as int, x + 1);
            lemma_row(*params, y as int, params.width_in_tiles as int);
            let each = tile_size(params.depth_write_address is Some);
            assert(each * (x + 1) <= each * params.width_in_tiles) by (nonlinear_arith)
                requires
                    0 <= each,
                    x + 1 <= params.width_in_tiles,
            ;
        }
        let index: u32 = y as u32 * params.width_in_tiles as u32 + x as u32;
        let address: u32 = params.tile_alloc_address + index * 32;
        let ghost first = cl@;
        place = put_draw(cl, place, params, x, y, address);
        let ghost second = cl@;
        place = put_store(cl, place, params, x, y);
        proof {
            list::lemma_more(old(cl)@, at as int, before, first, drawing, second);
            list::lemma_more(old(cl)@, at as int, before + drawing, second, storing, cl@);
        }
        x = x + 1;
    }
    place
}

/// Builds the control list of the render pass at the beginning of `cl`; gives its
/// length.
pub fn build(cl: &mut [u8], params: &RclParams) -> (length: usize)
    requires
        params.wf(),
        old(cl)@.len() >= list_size(params.tiles(), params.depth_write_address is Some),
    ensures
        length == rendering_list(*params).len(),
        length == list_size(params.tiles(), params.depth_write_address is Some),
        final(cl)@ == rendering_list(*params) + old(cl)@.skip(length as int),
{
    let ghost height = params.height_in_tiles as int;
    proof {
        lemma_header(*params);
        law_rendering_list(*params);
        assert(cl@.take(0) =~= Seq::<u8>::empty());
    }
    let mut place: usize = put_header(cl, params);
    let mut y: u8 = 0;
    assert(header(*params) + rows(*params, 0) =~= header(*params));
    while y < params.height_in_tiles
        invariant
            params.wf(),
            y <= params.height_in_tiles,
            height == params.height_in_tiles,
            cl@.len() == old(cl)@.len(),
            HEADER_SIZE + rows(*params, height).len() <= cl@.len(),
            header(*params).len() == HEADER_SIZE,
            place == HEADER_SIZE + rows(*params, y as int).len(),
            list::laid(old(cl)@, 0, header(*params) + rows(*params, y as int), cl@),
        decreases params.height_in_tiles - y,
    {
        let ghost before = header(*params) + rows(*params, y as int);
        let ghost more = row(*params, y as int, params.width_in_tiles as int);
        let ghost first = cl@;
        proof {
            lemma_rows_grow(*params, y + 1, height);
        }
        place = put_row(cl, place, params, y);
        proof {
            list::lemma_more(old(cl)@, 0, before, first, more, cl@);
            assert(before + more =~= header(*params) + rows(*params, y + 1));
        }
        y = y + 1;
    }
    proof {
        assert(old(cl)@.take(0) + rendering_list(*params) =~= rendering_list(*params));
        list::lemma_whole(old(cl)@, cl@, rendering_list(*params));
    }
    place
}

proof fn lemma_rows_grow(params: RclParams, some: int, all: int)
    requires
        0 <= some <= all,
    ensures
        rows(params, some).len() <= rows(params, all).len(),
    decreases all - some,
{
    if some < all {
        lemma_rows_grow(params, some, all - 1);
    }
}

} // verus!
