//! What the list of a render pass says of the target and of each tile.

use vstd::prelude::*;

use crate::bytes;
use crate::v3d::rcl;
use crate::v3d::rcl::RclParams;
use crate::v3d::reading;

verus! {

/// What the list begins with: where the colours go, how large the target is, and that it has
/// 32 bits for each pixel; what it is cleared to, once for each of two pixels, with the
/// largest depth; and a store of the first tile that stores nothing, but clears.
pub proof fn law_header(params: RclParams)
    ensures
        ({
            let l = rcl::rendering_list(params);
            &&& l.len() >= 35
            &&& l[0] == 0x71
            &&& reading::word(l, 1) == params.color_write_address
            &&& reading::half(l, 5) == params.width_px
            &&& reading::half(l, 7) == params.height_px
            &&& l[9] == 4
            &&& l[10] == 0
            &&& l[11] == 0x72
            &&& reading::word(l, 12) == params.clear_color_rgba8888
            &&& reading::word(l, 16) == params.clear_color_rgba8888
            &&& reading::word(l, 20) % 0x100_0000 == 0xff_ffff
            &&& l[23] == 0
            &&& l[24] == 0
            &&& l[25] == 0x73 && l[26] == 0 && l[27] == 0
            &&& l[28] == 0x1c
            &&& forall|i: int| 29 <= i < 35 ==> #[trigger] l[i] == 0
        }),
{
    let l = rcl::rendering_list(params);
    let h = rcl::header(params);
    rcl::lemma_header(params);
    assert forall|i: int| 0 <= i < 35 implies #[trigger] l[i] == h[i] by {}
    reveal(rcl::header);
    assert(l.subrange(1, 5) =~= bytes::le32_bytes(params.color_write_address));
    reading::lemma_word(l, 1, params.color_write_address);
    assert(l.subrange(5, 7) =~= bytes::le16_bytes(params.width_px));
    reading::lemma_half(l, 5, params.width_px);
    assert(l.subrange(7, 9) =~= bytes::le16_bytes(params.height_px));
    reading::lemma_half(l, 7, params.height_px);
    assert(l.subrange(12, 16) =~= bytes::le32_bytes(params.clear_color_rgba8888));
    reading::lemma_word(l, 12, params.clear_color_rgba8888);
    assert(l.subrange(16, 20) =~= bytes::le32_bytes(params.clear_color_rgba8888));
    reading::lemma_word(l, 16, params.clear_color_rgba8888);
}

/// How many tiles come before one: tiles come row by row.
pub open spec fn before(params: RclParams, x: int, y: int) -> int {
    y * params.width_in_tiles + x
}

/// Where in the list a tile begins: behind the header and the tiles before it, the first of
/// which takes one byte more.
pub open spec fn place(params: RclParams, x: int, y: int) -> int {
    let each: int = if params.depth_write_address is Some {
        19
    } else {
        9
    };
    35 + each * before(params, x, y) + if before(params, x, y) == 0 {
        0int
    } else {
        1
    }
}

/// What the list does for a tile. The tile is selected; for the first one the end of binning
/// is waited for; and what was binned for it is drawn, which is 32 bytes behind what was
/// binned for the tile before it. If depths are stored, this tile's are, where they go, and
/// the tile is selected again. Then its colours are stored, and after the last tile, and no
/// other, the frame ends.
pub proof fn law_tile(params: RclParams, x: int, y: int)
    requires
        params.wf(),
        0 <= x < params.width_in_tiles,
        0 <= y < params.height_in_tiles,
    ensures
        ({
            let l = rcl::rendering_list(params);
            let at = place(params, x, y);
            let drawn: int = if before(params, x, y) == 0 { at + 4 } else { at + 3 };
            let deep = params.depth_write_address is Some;
            let stored: int = if deep { drawn + 15 } else { drawn + 5 };
            &&& stored < l.len()
            &&& l[at] == 0x73 && l[at + 1] == x && l[at + 2] == y
            &&& before(params, x, y) == 0 ==> l[at + 3] == 0x08
            &&& l[drawn] == 0x11
            &&& reading::word(l, drawn + 1) == params.tile_alloc_address + 32 * before(params, x, y)
            &&& deep ==> {
                &&& l[drawn + 5] == 0x1c && l[drawn + 6] == 0x02 && l[drawn + 7] == 0x20
                &&& reading::word(l, drawn + 8) == params.depth_write_address->0
                &&& l[drawn + 12] == 0x73 && l[drawn + 13] == x && l[drawn + 14] == y
            }
            &&& l[stored] == if before(params, x, y) == params.tiles() - 1 { 0x19u8 } else {
                0x18u8
            }
        }),
{
    let l = rcl::rendering_list(params);
    let at = place(params, x, y);
    let tile = rcl::draw(params, x, y) + rcl::store(params, x, y);
    lemma_first_and_last(params, x, y);
    lemma_placed(params, x, y);
    lemma_tile_bytes(params, x, y);
    assert forall|i: int| 0 <= i < tile.len() implies #[trigger] l[at + i] == tile[i] by {
        assert(l.subrange(at, at + tile.len())[i] == tile[i]);
    }
    let first: int = if before(params, x, y) == 0 {
        4
    } else {
        3
    };
    lemma_read_at(l, at, tile, first + 1);
    assert(l[at + 0] == tile[0] && l[at + 1] == tile[1] && l[at + 2] == tile[2] && l[at + 3]
        == tile[3] && l[at + first] == tile[first] && l[at + (first + 5)] == tile[first + 5]);
    if params.depth_write_address is Some {
        lemma_read_at(l, at, tile, first + 8);
        assert(l[at + (first + 6)] == tile[first + 6] && l[at + (first + 7)] == tile[first + 7]
            && l[at + (first + 12)] == tile[first + 12] && l[at + (first + 13)] == tile[first + 13]
            && l[at + (first + 14)] == tile[first + 14] && l[at + (first + 15)] == tile[first
            + 15]);
    }
}

proof fn lemma_read_at(l: Seq<u8>, at: int, tile: Seq<u8>, i: int)
    requires
        0 <= at,
        0 <= i,
        i + 4 <= tile.len(),
        forall|k: int| 0 <= k < tile.len() ==> #[trigger] l[at + k] == tile[k],
    ensures
        reading::word(l, at + i) == reading::word(tile, i),
{
    assert(l[at + i] == tile[i] && l[at + (i + 1)] == tile[i + 1] && l[at + (i + 2)] == tile[i + 2]
        && l[at + (i + 3)] == tile[i + 3]);
}

proof fn lemma_first_and_last(params: RclParams, x: int, y: int)
    requires
        0 <= x < params.width_in_tiles,
        0 <= y < params.height_in_tiles,
    ensures
        before(params, x, y) == 0 <==> x == 0 && y == 0,
        before(params, x, y) == params.tiles() - 1 <==> x == params.width_in_tiles - 1 && y
            == params.height_in_tiles - 1,
        0 <= before(params, x, y) < params.tiles(),
{
    let width = params.width_in_tiles as int;
    let height = params.height_in_tiles as int;
    assert(y * width >= 0 && (y == 0 ==> y * width == 0) && (y > 0 ==> y * width >= width)
        && (y <= height - 1 ==> y * width <= (height - 1) * width) && (height - 1) * width == height
        * width - width && height * width == width * height && (y < height - 1 ==> y * width
        + width <= (height - 1) * width)) by (nonlinear_arith)
        requires
            0 <= y < height,
            0 < width,
    ;
}

proof fn lemma_tile_bytes(params: RclParams, x: int, y: int)
    requires
        params.wf(),
        0 <= x < params.width_in_tiles,
        0 <= y < params.height_in_tiles,
    ensures
        ({
            let t = rcl::draw(params, x, y) + rcl::store(params, x, y);
            let index = before(params, x, y);
            let first: int = if index == 0 { 4 } else { 3 };
            let deep = params.depth_write_address is Some;
            &&& t.len() == first + if deep { 16int } else { 6 }
            &&& t[0] == 0x73 && t[1] == x && t[2] == y
            &&& index == 0 ==> t[3] == 0x08
            &&& t[first] == 0x11
            &&& reading::word(t, first + 1) == params.tile_alloc_address + 32 * index
            &&& deep ==> {
                &&& t[first + 5] == 0x1c && t[first + 6] == 0x02 && t[first + 7] == 0x20
                &&& reading::word(t, first + 8) == params.depth_write_address->0
                &&& t[first + 12] == 0x73 && t[first + 13] == x && t[first + 14] == y
            }
            &&& t.last() == if index == params.tiles() - 1 { 0x19u8 } else { 0x18u8 }
        }),
{
    lemma_first_and_last(params, x, y);
    rcl::lemma_tile(params, x, y);
    let draw = rcl::draw(params, x, y);
    let store = rcl::store(params, x, y);
    let t = draw + store;
    let index = before(params, x, y);
    let first: int = if index == 0 {
        4
    } else {
        3
    };
    let list_address = rcl::tile_address(params, x, y);
    assert(list_address == params.tile_alloc_address + 32 * index);
    assert(t.subrange(first + 1, first + 5) =~= bytes::le32_bytes(list_address)) by {
        reveal(rcl::draw);
    }
    reading::lemma_word(t, first + 1, list_address);
    assert(t[0] == 0x73 && t[1] == x && t[2] == y && t[first] == 0x11 && (index == 0 ==> t[3]
        == 0x08)) by {
        reveal(rcl::draw);
    }
    if let Some(address) = params.depth_write_address {
        assert(t.subrange(first + 8, first + 12) =~= bytes::le32_bytes(address)) by {
            reveal(rcl::store);
        }
        reading::lemma_word(t, first + 8, address);
        assert(t[first + 5] == 0x1c && t[first + 6] == 0x02 && t[first + 7] == 0x20 && t[first + 12]
            == 0x73 && t[first + 13] == x && t[first + 14] == y) by {
            reveal(rcl::store);
        }
    }
    assert(t.last() == store.last());
}

proof fn lemma_placed(params: RclParams, x: int, y: int)
    requires
        0 <= x < params.width_in_tiles,
        0 <= y < params.height_in_tiles,
    ensures
        ({
            let l = rcl::rendering_list(params);
            let at = place(params, x, y);
            let tile = rcl::draw(params, x, y) + rcl::store(params, x, y);
            &&& at + tile.len() <= l.len()
            &&& l.subrange(at, at + tile.len()) == tile
        }),
{
    let width = params.width_in_tiles as int;
    let height = params.height_in_tiles as int;
    let deep = params.depth_write_address is Some;
    let each = rcl::tile_size(deep);
    rcl::lemma_header(params);
    rcl::lemma_rows(params, y);
    rcl::lemma_row(params, y, x);
    let above = rcl::rows(params, y);
    let left = rcl::row(params, y, x);
    let tile = rcl::draw(params, x, y) + rcl::store(params, x, y);
    assert(each * (y * width) + each * x == each * (y * width + x)) by (nonlinear_arith);
    assert(y * width >= 0 && (y == 0 ==> y * width == 0) && (y > 0 ==> y * width > 0))
        by (nonlinear_arith)
        requires
            0 <= y,
            0 < width,
    ;
    assert(35 + above.len() + left.len() == place(params, x, y));
    let upto = above + rcl::row(params, y, x + 1);
    assert(rcl::row(params, y, x + 1) =~= left + tile);
    lemma_row_prefix(params, y, x + 1, width);
    lemma_rows_prefix(params, y + 1, height);
    let whole = rcl::rows(params, height);
    let row = rcl::row(params, y, width);
    let upper = rcl::rows(params, y + 1);
    assert(upper == above + row);
    let begin = (above.len() + left.len()) as int;
    assert forall|i: int| 0 <= i < tile.len() implies #[trigger] whole[begin + i] == tile[i] by {
        assert(whole.take(upper.len() as int)[begin + i] == upper[begin + i]);
        assert(upper[begin + i] == row[left.len() + i]);
        assert(row.take(rcl::row(params, y, x + 1).len() as int)[left.len() + i] == rcl::row(
            params,
            y,
            x + 1,
        )[left.len() + i]);
    }
    let l = rcl::rendering_list(params);
    let at = place(params, x, y);
    assert forall|i: int| 0 <= i < tile.len() implies l[at + i] == tile[i] by {
        assert(l[35 + (begin + i)] == whole[begin + i]);
    }
    assert(l.subrange(at, at + tile.len()) =~= tile);
}

proof fn lemma_row_prefix(params: RclParams, y: int, count: int, all: int)
    requires
        0 <= count <= all,
    ensures
        rcl::row(params, y, count).len() <= rcl::row(params, y, all).len(),
        rcl::row(params, y, all).take(rcl::row(params, y, count).len() as int) == rcl::row(
            params,
            y,
            count,
        ),
    decreases all - count,
{
    let part = rcl::row(params, y, count);
    if count < all {
        lemma_row_prefix(params, y, count, all - 1);
        let most = rcl::row(params, y, all - 1);
        assert(rcl::row(params, y, all).take(part.len() as int) =~= most.take(part.len() as int));
    } else {
        assert(part.take(part.len() as int) =~= part);
    }
}

proof fn lemma_rows_prefix(params: RclParams, count: int, all: int)
    requires
        0 <= count <= all,
    ensures
        rcl::rows(params, count).len() <= rcl::rows(params, all).len(),
        rcl::rows(params, all).take(rcl::rows(params, count).len() as int) == rcl::rows(
            params,
            count,
        ),
    decreases all - count,
{
    let part = rcl::rows(params, count);
    if count < all {
        lemma_rows_prefix(params, count, all - 1);
        let most = rcl::rows(params, all - 1);
        assert(rcl::rows(params, all).take(part.len() as int) =~= most.take(part.len() as int));
    } else {
        assert(part.take(part.len() as int) =~= part);
    }
}

} // verus!
