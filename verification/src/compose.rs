//! Laying tiles out on a canvas.
//!
//! Tiles of one height are set side by side, left to right; tiles of one width
//! are stacked, top to bottom. Either way the tiles keep the order in which
//! they were given, each starts where the one before it ends, and together
//! they cover the canvas.

use vstd::prelude::*;
use crate::error::MergeError;
use crate::raster::{byte_count, byte_len, lemma_from_samples, lemma_same_samples, max_buffer_bytes, Raster, RasterData};

verus! {

/// What each raster of a sequence is.
pub open spec fn views(tiles: Seq<Raster>) -> Seq<RasterData> {
    tiles.map_values(|r: Raster| r@)
}

/// The widths of the tiles, added up.
pub open spec fn widths_sum(tiles: Seq<RasterData>) -> nat
    decreases tiles.len(),
{
    if tiles.len() == 0 {
        0
    } else {
        widths_sum(tiles.drop_last()) + tiles.last().width
    }
}

/// The heights of the tiles, added up.
pub open spec fn heights_sum(tiles: Seq<RasterData>) -> nat
    decreases tiles.len(),
{
    if tiles.len() == 0 {
        0
    } else {
        heights_sum(tiles.drop_last()) + tiles.last().height
    }
}

/// The column at which tile `i` starts: the widths of the tiles before it.
pub open spec fn left_of(tiles: Seq<RasterData>, i: int) -> nat {
    widths_sum(tiles.take(i))
}

/// The row at which tile `i` starts: the heights of the tiles before it.
pub open spec fn top_of(tiles: Seq<RasterData>, i: int) -> nat {
    heights_sum(tiles.take(i))
}

/// The tile that holds column `x` of the canvas: the last one that starts at
/// or before it.
pub open spec fn tile_of_column(tiles: Seq<RasterData>, x: int) -> int
    decreases tiles.len(),
{
    if tiles.len() <= 1 || x >= widths_sum(tiles.drop_last()) {
        tiles.len() - 1
    } else {
        tile_of_column(tiles.drop_last(), x)
    }
}

/// The tile that holds row `y` of the canvas.
pub open spec fn tile_of_row(tiles: Seq<RasterData>, y: int) -> int
    decreases tiles.len(),
{
    if tiles.len() <= 1 || y >= heights_sum(tiles.drop_last()) {
        tiles.len() - 1
    } else {
        tile_of_row(tiles.drop_last(), y)
    }
}

/// Every tile is a raster of the height `height`.
pub open spec fn all_of_height(tiles: Seq<RasterData>, height: nat) -> bool {
    forall|i: int| 0 <= i < tiles.len() ==> (#[trigger] tiles[i]).wf() && tiles[i].height == height
}

/// Every tile is a raster of the width `width`.
pub open spec fn all_of_width(tiles: Seq<RasterData>, width: nat) -> bool {
    forall|i: int| 0 <= i < tiles.len() ==> (#[trigger] tiles[i]).wf() && tiles[i].width == width
}

/// The canvas on which the tiles stand side by side: as wide as all of them
/// together, each of its pixels taken from the tile that holds its column.
pub open spec fn side_by_side(tiles: Seq<RasterData>, height: nat) -> RasterData {
    RasterData::from_samples(
        widths_sum(tiles),
        height,
        |x: int, y: int, c: int|
            {
                let i = tile_of_column(tiles, x);
                tiles[i].sample(x - left_of(tiles, i), y, c)
            },
    )
}

/// The canvas on which the tiles are stacked: as high as all of them together,
/// each of its pixels taken from the tile that holds its row.
pub open spec fn stacked(tiles: Seq<RasterData>, width: nat) -> RasterData {
    RasterData::from_samples(
        width,
        heights_sum(tiles),
        |x: int, y: int, c: int|
            {
                let i = tile_of_row(tiles, y);
                tiles[i].sample(x, y - top_of(tiles, i), c)
            },
    )
}

/// Whether a canvas of the given size can be had: its sides are sizes, and a
/// buffer can hold its bytes.
pub open spec fn canvas_fits(width: nat, height: nat) -> bool {
    width <= u32::MAX && height <= u32::MAX && byte_count(width, height) <= max_buffer_bytes()
}

/// Each tile starts where the one before it ends.
pub proof fn lemma_left_of_next(tiles: Seq<RasterData>, i: int)
    requires
        0 <= i < tiles.len(),
    ensures
        left_of(tiles, i + 1) == left_of(tiles, i) + tiles[i].width,
        left_of(tiles, i + 1) <= widths_sum(tiles),
    decreases tiles.len() - i,
{
    assert(tiles.take(i + 1).drop_last() =~= tiles.take(i));
    if i + 1 == tiles.len() {
        assert(tiles.take(i + 1) =~= tiles);
    } else {
        lemma_left_of_next(tiles, i + 1);
    }
}

/// Each tile starts where the one above it ends.
pub proof fn lemma_top_of_next(tiles: Seq<RasterData>, i: int)
    requires
        0 <= i < tiles.len(),
    ensures
        top_of(tiles, i + 1) == top_of(tiles, i) + tiles[i].height,
        top_of(tiles, i + 1) <= heights_sum(tiles),
    decreases tiles.len() - i,
{
    assert(tiles.take(i + 1).drop_last() =~= tiles.take(i));
    if i + 1 == tiles.len() {
        assert(tiles.take(i + 1) =~= tiles);
    } else {
        lemma_top_of_next(tiles, i + 1);
    }
}

/// A column inside tile `i` belongs to tile `i`.
pub proof fn lemma_tile_of_column(tiles: Seq<RasterData>, i: int, x: int)
    requires
        0 <= i < tiles.len(),
        left_of(tiles, i) <= x < left_of(tiles, i) + tiles[i].width,
    ensures
        tile_of_column(tiles, x) == i,
    decreases tiles.len(),
{
    let n = tiles.len() as int;
    assert(tiles.take(n - 1) =~= tiles.drop_last());
    if i == n - 1 {
    } else {
        lemma_left_of_next(tiles.drop_last(), i);
        assert(tiles.drop_last().take(i) =~= tiles.take(i));
        assert(tiles.drop_last().take(i + 1) =~= tiles.take(i + 1));
        lemma_tile_of_column(tiles.drop_last(), i, x);
    }
}

/// A row inside tile `i` belongs to tile `i`.
pub proof fn lemma_tile_of_row(tiles: Seq<RasterData>, i: int, y: int)
    requires
        0 <= i < tiles.len(),
        top_of(tiles, i) <= y < top_of(tiles, i) + tiles[i].height,
    ensures
        tile_of_row(tiles, y) == i,
    decreases tiles.len(),
{
    let n = tiles.len() as int;
    assert(tiles.take(n - 1) =~= tiles.drop_last());
    if i == n - 1 {
    } else {
        lemma_top_of_next(tiles.drop_last(), i);
        assert(tiles.drop_last().take(i) =~= tiles.take(i));
        assert(tiles.drop_last().take(i + 1) =~= tiles.take(i + 1));
        lemma_tile_of_row(tiles.drop_last(), i, y);
    }
}

/// Every column of the canvas lies inside the tile it belongs to.
pub proof fn lemma_column_has_tile(tiles: Seq<RasterData>, x: int)
    requires
        0 <= x < widths_sum(tiles),
    ensures
        0 <= tile_of_column(tiles, x) < tiles.len(),
        left_of(tiles, tile_of_column(tiles, x)) <= x < left_of(tiles, tile_of_column(tiles, x))
            + tiles[tile_of_column(tiles, x)].width,
    decreases tiles.len(),
{
    let n = tiles.len() as int;
    assert(tiles.take(n - 1) =~= tiles.drop_last());
    assert(tiles.take(n) =~= tiles);
    if n <= 1 || x >= widths_sum(tiles.drop_last()) {
        if n == 1 {
            assert(tiles.drop_last() =~= Seq::<RasterData>::empty());
        }
    } else {
        lemma_column_has_tile(tiles.drop_last(), x);
        let i = tile_of_column(tiles.drop_last(), x);
        assert(tiles.drop_last().take(i) =~= tiles.take(i));
    }
}

/// Every row of the canvas lies inside the tile it belongs to.
pub proof fn lemma_row_has_tile(tiles: Seq<RasterData>, y: int)
    requires
        0 <= y < heights_sum(tiles),
    ensures
        0 <= tile_of_row(tiles, y) < tiles.len(),
        top_of(tiles, tile_of_row(tiles, y)) <= y < top_of(tiles, tile_of_row(tiles, y))
            + tiles[tile_of_row(tiles, y)].height,
    decreases tiles.len(),
{
    let n = tiles.len() as int;
    assert(tiles.take(n - 1) =~= tiles.drop_last());
    assert(tiles.take(n) =~= tiles);
    if n <= 1 || y >= heights_sum(tiles.drop_last()) {
        if n == 1 {
            assert(tiles.drop_last() =~= Seq::<RasterData>::empty());
        }
    } else {
        lemma_row_has_tile(tiles.drop_last(), y);
        let i = tile_of_row(tiles.drop_last(), y);
        assert(tiles.drop_last().take(i) =~= tiles.take(i));
    }
}

/// Side by side, the tiles keep their order: pixel `(x, y)` of tile `i` is the
/// canvas's pixel `(left_of(tiles, i) + x, y)`, where that tile starts as many
/// columns in as the tiles before it are wide.
pub proof fn lemma_side_by_side_keeps_order(
    tiles: Seq<RasterData>,
    height: nat,
    i: int,
    x: int,
    y: int,
    c: int,
)
    requires
        all_of_height(tiles, height),
        0 <= i < tiles.len(),
        tiles[i].contains(x, y),
        0 <= c < 4,
    ensures
        side_by_side(tiles, height).wf(),
        side_by_side(tiles, height).width == widths_sum(tiles),
        side_by_side(tiles, height).height == height,
        side_by_side(tiles, height).contains(left_of(tiles, i) + x, y),
        side_by_side(tiles, height).sample(left_of(tiles, i) + x, y, c) == tiles[i].sample(x, y, c),
{
    let f = |x: int, y: int, c: int|
        {
            let i = tile_of_column(tiles, x);
            tiles[i].sample(x - left_of(tiles, i), y, c)
        };
    lemma_left_of_next(tiles, i);
    lemma_tile_of_column(tiles, i, left_of(tiles, i) + x);
    lemma_from_samples(widths_sum(tiles), height, f);
}

/// Stacked, the tiles keep their order: pixel `(x, y)` of tile `i` is the
/// canvas's pixel `(x, top_of(tiles, i) + y)`, where that tile starts as many
/// rows down as the tiles above it are high.
pub proof fn lemma_stacked_keeps_order(
    tiles: Seq<RasterData>,
    width: nat,
    i: int,
    x: int,
    y: int,
    c: int,
)
    requires
        all_of_width(tiles, width),
        0 <= i < tiles.len(),
        tiles[i].contains(x, y),
        0 <= c < 4,
    ensures
        stacked(tiles, width).wf(),
        stacked(tiles, width).width == width,
        stacked(tiles, width).height == heights_sum(tiles),
        stacked(tiles, width).contains(x, top_of(tiles, i) + y),
        stacked(tiles, width).sample(x, top_of(tiles, i) + y, c) == tiles[i].sample(x, y, c),
{
    let f = |x: int, y: int, c: int|
        {
            let i = tile_of_row(tiles, y);
            tiles[i].sample(x, y - top_of(tiles, i), c)
        };
    lemma_top_of_next(tiles, i);
    lemma_tile_of_row(tiles, i, top_of(tiles, i) + y);
    lemma_from_samples(width, heights_sum(tiles), f);
}

/// The first `done` tiles stand on the canvas, side by side.
pub open spec fn columns_placed(canvas: RasterData, tiles: Seq<RasterData>, done: int) -> bool {
    forall|j: int, x: int, y: int, c: int|
        0 <= j < done && tiles[j].contains(x, y) && 0 <= c < 4 ==> canvas.sample(
            left_of(tiles, j) + x,
            y,
            c,
        ) == #[trigger] tiles[j].sample(x, y, c)
}

/// The first `done` tiles stand on the canvas, stacked.
pub open spec fn rows_placed(canvas: RasterData, tiles: Seq<RasterData>, done: int) -> bool {
    forall|j: int, x: int, y: int, c: int|
        0 <= j < done && tiles[j].contains(x, y) && 0 <= c < 4 ==> canvas.sample(
            x,
            top_of(tiles, j) + y,
            c,
        ) == #[trigger] tiles[j].sample(x, y, c)
}

/// A later tile starts no further left than an earlier one ends.
pub proof fn lemma_left_of_monotone(tiles: Seq<RasterData>, i: int, j: int)
    requires
        0 <= i <= j <= tiles.len(),
    ensures
        left_of(tiles, i) <= left_of(tiles, j),
    decreases j - i,
{
    if i < j {
        lemma_left_of_next(tiles, i);
        lemma_left_of_monotone(tiles, i + 1, j);
    }
}

/// A later tile starts no higher than an earlier one ends.
pub proof fn lemma_top_of_monotone(tiles: Seq<RasterData>, i: int, j: int)
    requires
        0 <= i <= j <= tiles.len(),
    ensures
        top_of(tiles, i) <= top_of(tiles, j),
    decreases j - i,
{
    if i < j {
        lemma_top_of_next(tiles, i);
        lemma_top_of_monotone(tiles, i + 1, j);
    }
}

/// A canvas as wide as the tiles together, on which every tile stands in its
/// place, is the canvas of the tiles side by side.
pub proof fn lemma_columns_placed_is_side_by_side(
    canvas: RasterData,
    tiles: Seq<RasterData>,
    height: nat,
)
    requires
        canvas.wf(),
        canvas.width == widths_sum(tiles),
        canvas.height == height,
        all_of_height(tiles, height),
        columns_placed(canvas, tiles, tiles.len() as int),
    ensures
        canvas == side_by_side(tiles, height),
{
    let goal = side_by_side(tiles, height);
    let f = |x: int, y: int, c: int|
        {
            let i = tile_of_column(tiles, x);
            tiles[i].sample(x - left_of(tiles, i), y, c)
        };
    lemma_from_samples(widths_sum(tiles), height, f);
    assert forall|x: int, y: int, c: int| canvas.contains(x, y) && 0 <= c < 4 implies canvas.sample(
        x,
        y,
        c,
    ) == #[trigger] goal.sample(x, y, c) by {
        lemma_column_has_tile(tiles, x);
        let i = tile_of_column(tiles, x);
        assert(tiles[i].contains(x - left_of(tiles, i), y));
        assert(canvas.sample(left_of(tiles, i) + (x - left_of(tiles, i)), y, c) == tiles[i].sample(
            x - left_of(tiles, i),
            y,
            c,
        ));
    }
    lemma_same_samples(canvas, goal);
}

/// A canvas as high as the tiles together, on which every tile stands in its
/// place, is the canvas of the tiles stacked.
pub proof fn lemma_rows_placed_is_stacked(canvas: RasterData, tiles: Seq<RasterData>, width: nat)
    requires
        canvas.wf(),
        canvas.width == width,
        canvas.height == heights_sum(tiles),
        all_of_width(tiles, width),
        rows_placed(canvas, tiles, tiles.len() as int),
    ensures
        canvas == stacked(tiles, width),
{
    let goal = stacked(tiles, width);
    let f = |x: int, y: int, c: int|
        {
            let i = tile_of_row(tiles, y);
            tiles[i].sample(x, y - top_of(tiles, i), c)
        };
    lemma_from_samples(width, heights_sum(tiles), f);
    assert forall|x: int, y: int, c: int| canvas.contains(x, y) && 0 <= c < 4 implies canvas.sample(
        x,
        y,
        c,
    ) == #[trigger] goal.sample(x, y, c) by {
        lemma_row_has_tile(tiles, y);
        let i = tile_of_row(tiles, y);
        assert(tiles[i].contains(x, y - top_of(tiles, i)));
        assert(canvas.sample(x, top_of(tiles, i) + (y - top_of(tiles, i)), c) == tiles[i].sample(
            x,
            y - top_of(tiles, i),
            c,
        ));
    }
    lemma_same_samples(canvas, goal);
}

/// The widths of the tiles together, where they make a canvas's width.
fn total_width(tiles: &Vec<Raster>) -> (total: Option<u32>)
    ensures
        match total {
            Some(w) => w == widths_sum(views(tiles@)),
            None => widths_sum(views(tiles@)) > u32::MAX,
        },
{
    let ghost all = views(tiles@);
    let mut total: u64 = 0;
    let mut i: usize = 0;
    while i < tiles.len()
        invariant
            i <= tiles.len(),
            all == views(tiles@),
            total == left_of(all, i as int),
            total <= u32::MAX,
        decreases tiles.len() - i,
    {
        proof {
            lemma_left_of_next(all, i as int);
        }
        total = total + tiles[i].width() as u64;
        if total > u32::MAX as u64 {
            return None;
        }
        i = i + 1;
    }
    assert(all.take(i as int) =~= all);
    Some(total as u32)
}

/// The heights of the tiles together, where they make a canvas's height.
fn total_height(tiles: &Vec<Raster>) -> (total: Option<u32>)
    ensures
        match total {
            Some(h) => h == heights_sum(views(tiles@)),
            None => heights_sum(views(tiles@)) > u32::MAX,
        },
{
    let ghost all = views(tiles@);
    let mut total: u64 = 0;
    let mut i: usize = 0;
    while i < tiles.len()
        invariant
            i <= tiles.len(),
            all == views(tiles@),
            total == top_of(all, i as int),
            total <= u32::MAX,
        decreases tiles.len() - i,
    {
        proof {
            lemma_top_of_next(all, i as int);
        }
        total = total + tiles[i].height() as u64;
        if total > u32::MAX as u64 {
            return None;
        }
        i = i + 1;
    }
    assert(all.take(i as int) =~= all);
    Some(total as u32)
}

/// Sets the tiles side by side on a new canvas, in the order given.
///
/// Fails with `CanvasTooLarge` where no canvas of that size can be had.
pub fn place_side_by_side(tiles: &Vec<Raster>, height: u32) -> (r: Result<Raster, MergeError>)
    requires
        all_of_height(views(tiles@), height as nat),
    ensures
        r is Ok <==> canvas_fits(widths_sum(views(tiles@)), height as nat),
        r matches Ok(canvas) ==> canvas@ == side_by_side(views(tiles@), height as nat)
            && canvas@.wf(),
        r matches Err(e) ==> e == MergeError::CanvasTooLarge,
{
    let ghost all = views(tiles@);
    let width: u32 = match total_width(tiles) {
        Some(w) => w,
        None => {
            return Err(MergeError::CanvasTooLarge);
        },
    };
    if byte_len(width, height).is_none() {
        return Err(MergeError::CanvasTooLarge);
    }
    let mut canvas = Raster::new(width, height);
    let mut left: u32 = 0;
    let mut i: usize = 0;
    while i < tiles.len()
        invariant
            i <= tiles.len(),
            all == views(tiles@),
            all_of_height(all, height as nat),
            canvas@.wf(),
            canvas@.width == width == widths_sum(all),
            canvas@.height == height,
            left == left_of(all, i as int),
            columns_placed(canvas@, all, i as int),
        decreases tiles.len() - i,
    {
        let ghost before = canvas@;
        proof {
            lemma_left_of_next(all, i as int);
            assert(all[i as int].wf());
        }
        canvas.copy_from(&tiles[i], left, 0);
        proof {
            assert forall|j: int, x: int, y: int, c: int|
                0 <= j < i + 1 && all[j].contains(x, y) && 0 <= c < 4 implies canvas@.sample(
                left_of(all, j) + x,
                y,
                c,
            ) == #[trigger] all[j].sample(x, y, c) by {
                if j < i {
                    lemma_left_of_next(all, j);
                    lemma_left_of_monotone(all, j + 1, i as int);
                    assert(all[j].wf());
                    let at = left_of(all, j) + x;
                    assert(before.contains(at, y));
                    assert(!tiles[i as int]@.contains(at - left, y - 0));
                    assert(canvas@.sample(at, y, c) == before.sample(at, y, c));
                } else {
                    assert(all[j] == tiles[i as int]@);
                    assert(canvas@.sample(left + x, 0 + y, c) == tiles[i as int]@.sample(x, y, c));
                }
            }
        }
        left = left + tiles[i].width();
        i = i + 1;
    }
    proof {
        lemma_columns_placed_is_side_by_side(canvas@, all, height as nat);
    }
    Ok(canvas)
}

/// Stacks the tiles on a new canvas, in the order given.
///
/// Fails with `CanvasTooLarge` where no canvas of that size can be had.
pub fn place_stacked(tiles: &Vec<Raster>, width: u32) -> (r: Result<Raster, MergeError>)
    requires
        all_of_width(views(tiles@), width as nat),
    ensures
        r is Ok <==> canvas_fits(width as nat, heights_sum(views(tiles@))),
        r matches Ok(canvas) ==> canvas@ == stacked(views(tiles@), width as nat) && canvas@.wf(),
        r matches Err(e) ==> e == MergeError::CanvasTooLarge,
{
    let ghost all = views(tiles@);
    let height: u32 = match total_height(tiles) {
        Some(h) => h,
        None => {
            return Err(MergeError::CanvasTooLarge);
        },
    };
    if byte_len(width, height).is_none() {
        return Err(MergeError::CanvasTooLarge);
    }
    let mut canvas = Raster::new(width, height);
    let mut top: u32 = 0;
    let mut i: usize = 0;
    while i < tiles.len()
        invariant
            i <= tiles.len(),
            all == views(tiles@),
            all_of_width(all, width as nat),
            canvas@.wf(),
            canvas@.width == width,
            canvas@.height == height == heights_sum(all),
            top == top_of(all, i as int),
            rows_placed(canvas@, all, i as int),
        decreases tiles.len() - i,
    {
        let ghost before = canvas@;
        proof {
            lemma_top_of_next(all, i as int);
            assert(all[i as int].wf());
        }
        canvas.copy_from(&tiles[i], 0, top);
        proof {
            assert forall|j: int, x: int, y: int, c: int|
                0 <= j < i + 1 && all[j].contains(x, y) && 0 <= c < 4 implies canvas@.sample(
                x,
                top_of(all, j) + y,
                c,
            ) == #[trigger] all[j].sample(x, y, c) by {
                if j < i {
                    lemma_top_of_next(all, j);
                    lemma_top_of_monotone(all, j + 1, i as int);
                    assert(all[j].wf());
                    let at = top_of(all, j) + y;
                    assert(before.contains(x, at));
                    assert(!tiles[i as int]@.contains(x - 0, at - top));
                    assert(canvas@.sample(x, at, c) == before.sample(x, at, c));
                } else {
                    assert(all[j] == tiles[i as int]@);
                    assert(canvas@.sample(0 + x, top + y, c) == tiles[i as int]@.sample(x, y, c));
                }
            }
        }
        top = top + tiles[i].height();
        i = i + 1;
    }
    proof {
        lemma_rows_placed_is_stacked(canvas@, all, width as nat);
    }
    Ok(canvas)
}

} // verus!
